use super::boundary::{lemma_boundary_concat, lemma_split};
use super::buffer::{fits_in_storage, spliced};
use super::{Buffer, Slice, Str};
use crate::range::{range_within, resolved, IntoRange};
use std::ops::Range;
use vstd::prelude::*;
use vstd::string::StringSliceAdditionalSpecFns;
use vstd::utf8::*;

verus! {

broadcast use {encode_utf8_valid_utf8, valid_utf8_concat};

/// Relies on `std::str::from_utf8`: it accepts exactly the valid UTF-8 byte sequences, and the
/// string it returns holds those bytes.
#[verifier::external_body]
pub(crate) fn from_utf8<'a>(v: &'a [u8]) -> (r: Option<&'a str>)
    ensures
        r is Some <==> valid_utf8(v@),
        r matches Some(s) ==> s.spec_bytes() == v@,
{
    std::str::from_utf8(v).ok()
}

/// Relies on `String::into_bytes`: the UTF-8 bytes of the string.
#[verifier::external_body]
fn into_bytes(s: std::string::String) -> (r: Vec<u8>)
    ensures
        r@ == encode_utf8(s@),
{
    s.into_bytes()
}

/// Relies on `String::from_utf8`: it accepts exactly the valid UTF-8 byte sequences, and the
/// string it returns holds those bytes.
#[verifier::external_body]
fn string_from_utf8(v: Vec<u8>) -> (r: Option<std::string::String>)
    ensures
        r is Some <==> valid_utf8(v@),
        r matches Some(s) ==> encode_utf8(s@) == v@,
{
    std::string::String::from_utf8(v).ok()
}

/// Gap buffer UTF-8 string.
pub struct String {
    pub(super) buf: Buffer,
}

impl View for String {
    type V = Seq<u8>;

    /// The UTF-8 bytes of the string.
    closed spec fn view(&self) -> Seq<u8> {
        self.buf@
    }
}

impl String {
    /// The buffer is well formed and the gap sits on a character boundary, so that each of its
    /// two segments is valid UTF-8 on its own.
    pub closed spec fn wf(&self) -> bool {
        &&& self.buf.wf()
        &&& valid_utf8(self.buf.front())
        &&& valid_utf8(self.buf.back())
    }

    /// The text before the gap.
    pub closed spec fn front(&self) -> Seq<u8> {
        self.buf.front()
    }

    /// The text after the gap.
    pub closed spec fn back(&self) -> Seq<u8> {
        self.buf.back()
    }

    /// The free space of the underlying buffer.
    pub closed spec fn gap_len(&self) -> int {
        self.buf.gap_len()
    }

    /// The characters of the string.
    pub open spec fn chars(&self) -> Seq<char> {
        decode_utf8(self@)
    }

    /// Creates an empty string without allocating.
    pub fn new() -> (r: Self)
        ensures
            r.wf(),
            r@ == Seq::<u8>::empty(),
    {
        String { buf: Buffer::new() }
    }

    /// Creates a string with a pre-allocated gap.
    pub fn with_gap(gap: usize) -> (r: Self)
        ensures
            r.wf(),
            r@ == Seq::<u8>::empty(),
    {
        String { buf: Buffer::with_gap(gap) }
    }

    /// Returns the length of the string in bytes, excluding the gap.
    pub fn len(&self) -> (r: usize)
        requires
            self.wf(),
        ensures
            r == self@.len(),
    {
        self.buf.len()
    }

    /// The content of a well-formed string is valid UTF-8.
    pub proof fn lemma_valid(&self)
        requires
            self.wf(),
        ensures
            valid_utf8(self@),
    {
    }

    /// Returns a string slice containing the entire string.
    pub fn as_str(&self) -> (r: Str<'_>)
        requires
            self.wf(),
        ensures
            r.bytes() == self@,
    {
        match self.buf.as_slice() {
            Slice::Contiguous(back) => {
                assert(back@ == self.buf.front() + self.buf.back());
                match from_utf8(back) {
                    Some(s) => Str::Contiguous(s),
                    None => vstd::pervasive::unreached(),
                }
            },
            Slice::Fragmented(front, back) => {
                match (from_utf8(front), from_utf8(back)) {
                    (Some(f), Some(b)) => Str::Fragmented(f, b),
                    _ => vstd::pervasive::unreached(),
                }
            },
        }
    }

    /// Returns the text before the gap, the length of the gap, and the text after it, for
    /// diagnostics.
    pub fn segments(&self) -> (r: (&str, usize, &str))
        requires
            self.wf(),
        ensures
            r.0.spec_bytes() == self.front(),
            r.1 == self.gap_len(),
            r.2.spec_bytes() == self.back(),
            self.front() + self.back() == self@,
    {
        let (front, gap, back) = self.buf.segments();
        match (from_utf8(front), from_utf8(back)) {
            (Some(f), Some(b)) => (f, gap, b),
            _ => vstd::pervasive::unreached(),
        }
    }

    /// Returns a slice of the string. Both ends are byte offsets on character boundaries.
    pub fn slice<R: IntoRange>(&self, range: R) -> (r: Str<'_>)
        requires
            self.wf(),
            range_within(resolved(range, self@.len()), self@.len()),
            is_char_boundary(self@, resolved(range, self@.len()).start as int),
            is_char_boundary(self@, resolved(range, self@.len()).end as int),
        ensures
            r.bytes() == self@.subrange(
                resolved(range, self@.len()).start as int,
                resolved(range, self@.len()).end as int,
            ),
    {
        proof {
            self.buf.lemma_len_bound();
        }
        self.as_str().slice(range)
    }

    /// Replaces a slice of the string. Destination and source can be different lengths, and
    /// both ends of the destination lie on character boundaries.
    ///
    /// Returns the range of written bytes.
    pub fn splice<R: IntoRange>(&mut self, dest: R, src: &str) -> (r: Range<usize>)
        requires
            old(self).wf(),
            range_within(resolved(dest, old(self)@.len()), old(self)@.len()),
            is_char_boundary(
                old(self)@,
                resolved(dest, old(self)@.len()).start as int,
            ),
            is_char_boundary(old(self)@, resolved(dest, old(self)@.len()).end as int),
            fits_in_storage(
                old(self)@.len() - resolved(dest, old(self)@.len()).end
                    + resolved(dest, old(self)@.len()).start
                    + src.spec_bytes().len(),
            ),
        ensures
            final(self).wf(),
            final(self)@ == spliced(
                old(self)@,
                resolved(dest, old(self)@.len()).start as int,
                resolved(dest, old(self)@.len()).end as int,
                src.spec_bytes(),
            ),
            valid_utf8(final(self)@),
            r.start == resolved(dest, old(self)@.len()).start,
            r.end == r.start + src.spec_bytes().len(),
    {
        let ghost content = self@;
        let dest = dest.into_range(self.len());
        proof {
            lemma_split(content, dest.start as int);
            lemma_split(content, dest.end as int);
        }
        let r = self.buf.splice(dest, src.as_bytes());
        proof {
            assert(valid_utf8(self.buf.front()));
        }
        r
    }

    /// Builds a string from an owned one, using its extra capacity as the gap.
    pub fn from_std(string: std::string::String) -> (r: Self)
        ensures
            r.wf(),
            r@ == encode_utf8(string@),
            r.chars() == string@,
    {
        let buf = Buffer::from_vec(into_bytes(string));
        proof {
            encode_utf8_decode_utf8(string@);
        }
        String { buf: buf }
    }

    /// Turns the string back into an owned one. The gap moves to the end, where it becomes extra
    /// capacity.
    pub fn into_std(self) -> (r: std::string::String)
        requires
            self.wf(),
        ensures
            encode_utf8(r@) == self@,
            r@ == self.chars(),
    {
        let bytes = self.buf.into_vec();
        match string_from_utf8(bytes) {
            Some(s) => {
                proof {
                    encode_utf8_decode_utf8(s@);
                }
                s
            },
            None => vstd::pervasive::unreached(),
        }
    }

    /// Builds a string holding a copy of `s`.
    pub fn from_str(s: &str) -> (r: Self)
        requires
            fits_in_storage(s.spec_bytes().len() as int),
        ensures
            r.wf(),
            r@ == s.spec_bytes(),
    {
        let mut string = String::new();
        proof {
            is_char_boundary_start_end_of_seq(Seq::<u8>::empty());
        }
        string.splice(.., s);
        assert(string@ =~= s.spec_bytes());
        string
    }

    /// Returns the text of the string as an owned one.
    pub fn to_std_string(&self) -> (r: std::string::String)
        requires
            self.wf(),
        ensures
            encode_utf8(r@) == self@,
    {
        self.as_str().to_std_string()
    }

    /// Returns `true` if the string holds exactly the text `other`.
    pub fn eq_str(&self, other: &str) -> (r: bool)
        requires
            self.wf(),
        ensures
            r == (self@ == other.spec_bytes()),
    {
        self.as_str().as_bytes().eq_bytes(other.as_bytes())
    }
}

impl Default for String {
    fn default() -> (r: Self)
        ensures
            r.wf(),
            r@ == Seq::<u8>::empty(),
    {
        Self::new()
    }
}

impl<'a> Str<'a> {
    /// Returns the text of the slice as an owned string.
    pub fn to_std_string(&self) -> (r: std::string::String)
        ensures
            r@ == self@,
            encode_utf8(r@) == self.bytes(),
    {
        let r = match *self {
            Str::Contiguous(back) => back.to_owned(),
            Str::Fragmented(front, back) => {
                let mut s = front.to_owned();
                s.append(back);
                s
            },
        };
        proof {
            lemma_encode_concat_str(*self);
        }
        r
    }

    /// Returns `true` if the slice holds exactly the text `other`, without copying the slice.
    pub fn eq_str(&self, other: &str) -> (r: bool)
        ensures
            r == (self.bytes() == other.spec_bytes()),
    {
        self.as_bytes().eq_bytes(other.as_bytes())
    }
}

/// The bytes of a slice encode its characters.
proof fn lemma_encode_concat_str(s: Str)
    ensures
        encode_utf8(s@) == s.bytes(),
{
    if let Str::Fragmented(front, back) = s {
        lemma_encode_concat(front@, back@);
    }
}

/// Encoding two runs of characters one after the other gives the two encodings one after the
/// other.
pub proof fn lemma_encode_concat(a: Seq<char>, b: Seq<char>)
    ensures
        encode_utf8(a + b) == encode_utf8(a) + encode_utf8(b),
    decreases a.len(),
{
    if a.len() == 0 {
        assert(a + b =~= b);
        assert(encode_utf8(a) + encode_utf8(b) =~= encode_utf8(b));
    } else {
        lemma_encode_concat(a.drop_first(), b);
        assert((a + b).drop_first() =~= a.drop_first() + b);
        assert(encode_utf8(a + b) =~= encode_utf8(a) + encode_utf8(b));
    }
}

} // verus!
