use crate::range::{range_within, resolved, IntoRange};
use std::ops::Range;
use vstd::prelude::*;

verus! {

/// Slice of a gap buffer.
#[derive(Debug, Clone, Copy)]
pub enum Slice<'a> {
    /// Contiguous slice, i.e. entirely either side of the gap.
    Contiguous(&'a [u8]),
    /// Fragmented slice, i.e. separated by the gap.
    Fragmented(&'a [u8], &'a [u8]),
}

impl<'a> View for Slice<'a> {
    type V = Seq<u8>;

    /// The bytes of the slice, in order.
    open spec fn view(&self) -> Seq<u8> {
        match *self {
            Slice::Contiguous(back) => back@,
            Slice::Fragmented(front, back) => front@ + back@,
        }
    }
}

impl<'a> Slice<'a> {
    /// Returns the length of the slice.
    pub fn len(&self) -> (r: usize)
        requires
            self@.len() <= usize::MAX,
        ensures
            r == self@.len(),
    {
        match *self {
            Slice::Contiguous(back) => back.len(),
            Slice::Fragmented(front, back) => front.len() + back.len(),
        }
    }

    /// Returns a sub-slice of the slice.
    pub fn slice<R: IntoRange>(&self, range: R) -> (r: Self)
        requires
            self@.len() <= usize::MAX,
            range_within(resolved(range, self@.len()), self@.len()),
        ensures
            r@ == self@.subrange(
                resolved(range, self@.len()).start as int,
                resolved(range, self@.len()).end as int,
            ),
    {
        let range = range.into_range(self.len());
        match *self {
            Slice::Contiguous(back) => Slice::Contiguous(&back[range]),
            Slice::Fragmented(front, back) => {
                if range.end <= front.len() {
                    proof {
                        assert(self@.subrange(range.start as int, range.end as int)
                            =~= front@.subrange(range.start as int, range.end as int));
                    }
                    Slice::Contiguous(&front[range])
                } else if range.start >= front.len() {
                    let r = (range.start - front.len())..(range.end - front.len());
                    proof {
                        assert(self@.subrange(range.start as int, range.end as int)
                            =~= back@.subrange(r.start as int, r.end as int));
                    }
                    Slice::Contiguous(&back[r])
                } else {
                    let f = &front[range.start..front.len()];
                    let b = &back[0..(range.end - front.len())];
                    proof {
                        assert(self@.subrange(range.start as int, range.end as int) =~= f@ + b@);
                    }
                    Slice::Fragmented(f, b)
                }
            },
        }
    }
}

} // verus!
