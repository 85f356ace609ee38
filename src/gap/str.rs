use super::boundary::{lemma_boundary_concat, lemma_boundary_prefix};
use super::Slice;
use crate::range::{range_within, resolved, IntoRange};
use vstd::prelude::*;
use vstd::string::StringSliceAdditionalSpecFns;
use vstd::utf8::*;

verus! {

broadcast use encode_utf8_valid_utf8;

/// Slice of a gap buffer string.
#[derive(Debug, Clone, Copy)]
pub enum Str<'a> {
    /// Contiguous slice, i.e. entirely either side of the gap.
    Contiguous(&'a str),
    /// Fragmented slice, i.e. separated by the gap.
    Fragmented(&'a str, &'a str),
}

impl<'a> View for Str<'a> {
    type V = Seq<char>;

    /// The characters of the slice, in order.
    open spec fn view(&self) -> Seq<char> {
        match *self {
            Str::Contiguous(back) => back@,
            Str::Fragmented(front, back) => front@ + back@,
        }
    }
}

/// The part `start..end` of `s`, by byte offsets that lie on character boundaries.
fn sub_str<'a>(s: &'a str, start: usize, end: usize) -> (r: &'a str)
    requires
        start <= end,
        is_char_boundary(s.spec_bytes(), start as int),
        is_char_boundary(s.spec_bytes(), end as int),
    ensures
        r.spec_bytes() == s.spec_bytes().subrange(start as int, end as int),
{
    proof {
        lemma_boundary_prefix(s.spec_bytes(), end as int, start as int);
    }
    let (head, _) = s.split_at(end);
    let (_, r) = head.split_at(start);
    assert(r.spec_bytes() =~= s.spec_bytes().subrange(start as int, end as int));
    r
}

impl<'a> Str<'a> {
    /// The UTF-8 bytes of the slice, in order.
    pub open spec fn bytes(&self) -> Seq<u8> {
        match *self {
            Str::Contiguous(back) => back.spec_bytes(),
            Str::Fragmented(front, back) => front.spec_bytes() + back.spec_bytes(),
        }
    }

    /// Returns the length of the string slice, in bytes.
    pub fn len(&self) -> (r: usize)
        requires
            self.bytes().len() <= usize::MAX,
        ensures
            r == self.bytes().len(),
    {
        match *self {
            Str::Contiguous(back) => back.len(),
            Str::Fragmented(front, back) => front.len() + back.len(),
        }
    }

    /// Returns `true` if the slice contains no data.
    pub fn is_empty(&self) -> (r: bool)
        ensures
            r == (self@.len() == 0),
    {
        match *self {
            Str::Contiguous(back) => back.is_empty(),
            Str::Fragmented(front, back) => front.is_empty() && back.is_empty(),
        }
    }

    /// Converts a string slice to a byte slice.
    pub fn as_bytes(&self) -> (r: Slice<'a>)
        ensures
            r@ == self.bytes(),
            match (*self, r) {
                (Str::Contiguous(_), Slice::Contiguous(_)) => true,
                (Str::Fragmented(f, b), Slice::Fragmented(bf, bb)) => bf@ == f.spec_bytes()
                    && bb@ == b.spec_bytes(),
                _ => false,
            },
    {
        match *self {
            Str::Contiguous(back) => Slice::Contiguous(back.as_bytes()),
            Str::Fragmented(front, back) => Slice::Fragmented(front.as_bytes(), back.as_bytes()),
        }
    }

    /// Returns a sub-slice of the string slice. Both ends are byte offsets on character
    /// boundaries.
    pub fn slice<R: IntoRange>(&self, range: R) -> (r: Self)
        requires
            self.bytes().len() <= usize::MAX,
            range_within(resolved(range, self.bytes().len()), self.bytes().len()),
            is_char_boundary(
                self.bytes(),
                resolved(range, self.bytes().len()).start as int,
            ),
            is_char_boundary(
                self.bytes(),
                resolved(range, self.bytes().len()).end as int,
            ),
        ensures
            r.bytes() == self.bytes().subrange(
                resolved(range, self.bytes().len()).start as int,
                resolved(range, self.bytes().len()).end as int,
            ),
    {
        let range = range.into_range(self.len());
        let (start, end) = (range.start, range.end);
        match *self {
            Str::Contiguous(back) => Str::Contiguous(sub_str(back, start, end)),
            Str::Fragmented(front, back) => {
                let fb = Ghost(front.spec_bytes());
                let bb = Ghost(back.spec_bytes());
                let n = front.len();
                proof {
                    lemma_boundary_concat(fb@, bb@, start as int);
                    lemma_boundary_concat(fb@, bb@, end as int);
                    lemma_boundary_concat(fb@, bb@, n as int);
                }
                if end <= n {
                    proof {
                        if end == n {
                            is_char_boundary_start_end_of_seq(fb@);
                        }
                    }
                    let r = sub_str(front, start, end);
                    assert(r.spec_bytes() =~= self.bytes().subrange(start as int, end as int));
                    Str::Contiguous(r)
                } else if start >= n {
                    let r = sub_str(back, start - n, end - n);
                    assert(r.spec_bytes() =~= self.bytes().subrange(start as int, end as int));
                    Str::Contiguous(r)
                } else {
                    proof {
                        is_char_boundary_start_end_of_seq(fb@);
                        is_char_boundary_start_end_of_seq(bb@);
                    }
                    let f = sub_str(front, start, n);
                    let b = sub_str(back, 0, end - n);
                    assert(f.spec_bytes() + b.spec_bytes() =~= self.bytes().subrange(
                        start as int,
                        end as int,
                    ));
                    Str::Fragmented(f, b)
                }
            },
        }
    }

    /// Checks that `index`-th byte lies at the start and/or end of a UTF-8 code point sequence.
    pub fn is_char_boundary(&self, index: usize) -> (r: bool)
        requires
            self.bytes().len() <= usize::MAX,
        ensures
            valid_utf8(self.bytes()),
            r == is_char_boundary(self.bytes(), index as int),
    {
        match *self {
            Str::Contiguous(back) => back.is_char_boundary(index),
            Str::Fragmented(front, back) => {
                proof {
                    lemma_boundary_concat(front.spec_bytes(), back.spec_bytes(), index as int);
                }
                if index < front.len() {
                    front.is_char_boundary(index)
                } else {
                    back.is_char_boundary(index - front.len())
                }
            },
        }
    }
}

} // verus!
