//! Splice operations.
//!
//! An operation is one splice request: the range it replaces and the data it writes there.
//! Applying it returns its inverse, which holds the data it overwrote, so that an undo history can
//! replay either direction.

use crate::gap::{spliced, Buffer, String};
use crate::range::range_within;
use std::ops::Range;
use vstd::prelude::*;
use vstd::string::StringSliceAdditionalSpecFns;
use vstd::utf8::*;

verus! {

/// Splice operation.
#[derive(Debug, PartialEq, Eq)]
pub struct Operation<T> {
    /// Destination range.
    pub dest: Range<usize>,
    /// Source data.
    pub src: T,
}

impl<T: Clone> Clone for Operation<T> {
    fn clone(&self) -> (r: Self)
        ensures
            r.dest == self.dest,
    {
        Operation { dest: self.dest.start..self.dest.end, src: self.src.clone() }
    }
}

/// Types which can have splice operations applied.
pub trait Operate: Sized {
    /// Simple owned data container.
    type Owned;

    /// The content, as bytes.
    spec fn content(&self) -> Seq<u8>;

    /// The bytes that owned data holds.
    spec fn owned_bytes(data: &Self::Owned) -> Seq<u8>;

    /// True when `operation` can be applied: the value is well formed, the destination lies
    /// within the content and the result fits in memory.
    spec fn can_apply(&self, operation: &Operation<Self::Owned>) -> bool;

    /// True when the value is well formed.
    spec fn ready(&self) -> bool;

    /// Applies a splice operation, returning the corresponding revert operation.
    fn apply(&mut self, operation: &Operation<Self::Owned>) -> (r: Operation<Self::Owned>)
        requires
            old(self).can_apply(operation),
        ensures
            final(self).ready(),
            final(self).content() == spliced(
                old(self).content(),
                operation.dest.start as int,
                operation.dest.end as int,
                Self::owned_bytes(&operation.src),
            ),
            r.dest.start == operation.dest.start,
            r.dest.end == operation.dest.start + Self::owned_bytes(&operation.src).len(),
            Self::owned_bytes(&r.src) == old(self).content().subrange(
                operation.dest.start as int,
                operation.dest.end as int,
            ),
    ;
}

impl Operate for Buffer {
    type Owned = Vec<u8>;

    open spec fn content(&self) -> Seq<u8> {
        self@
    }

    open spec fn owned_bytes(data: &Vec<u8>) -> Seq<u8> {
        data@
    }

    open spec fn can_apply(&self, operation: &Operation<Vec<u8>>) -> bool {
        &&& self.wf()
        &&& range_within(operation.dest, self@.len())
        &&& crate::gap::fits_in_storage(
            self@.len() - operation.dest.end + operation.dest.start + operation.src@.len(),
        )
    }

    open spec fn ready(&self) -> bool {
        self.wf()
    }

    fn apply(&mut self, operation: &Operation<Vec<u8>>) -> (r: Operation<Vec<u8>>) {
        let range = operation.dest.start..operation.dest.end;
        let src = self.slice(operation.dest.start..operation.dest.end).to_vec();
        let dest = self.splice(range, operation.src.as_slice());
        Operation { dest: dest, src: src }
    }
}

impl Operate for String {
    type Owned = std::string::String;

    open spec fn content(&self) -> Seq<u8> {
        self@
    }

    open spec fn owned_bytes(data: &std::string::String) -> Seq<u8> {
        encode_utf8(data@)
    }

    open spec fn can_apply(&self, operation: &Operation<std::string::String>) -> bool {
        &&& self.wf()
        &&& range_within(operation.dest, self@.len())
        &&& is_char_boundary(self@, operation.dest.start as int)
        &&& is_char_boundary(self@, operation.dest.end as int)
        &&& crate::gap::fits_in_storage(
            self@.len() - operation.dest.end + operation.dest.start + encode_utf8(
                operation.src@,
            ).len(),
        )
    }

    open spec fn ready(&self) -> bool {
        self.wf()
    }

    fn apply(&mut self, operation: &Operation<std::string::String>) -> (r: Operation<
        std::string::String,
    >) {
        let range = operation.dest.start..operation.dest.end;
        let src = self.slice(operation.dest.start..operation.dest.end).to_std_string();
        let text = operation.src.as_str();
        assert(text.spec_bytes() == encode_utf8(operation.src@));
        let dest = self.splice(range, text);
        Operation { dest: dest, src: src }
    }
}

/// Applying the inverse that a splice returns restores the content as it was: replacing the
/// written range with the overwritten bytes undoes the splice.
pub proof fn lemma_inverse_restores(s: Seq<u8>, start: int, end: int, src: Seq<u8>)
    requires
        0 <= start <= end <= s.len(),
    ensures
        spliced(
            spliced(s, start, end, src),
            start,
            start + src.len(),
            s.subrange(start, end),
        ) == s,
{
    let t = spliced(s, start, end, src);
    assert(t.subrange(0, start) =~= s.subrange(0, start));
    assert(t.subrange(start + src.len(), t.len() as int) =~= s.subrange(end, s.len() as int));
    assert(spliced(t, start, start + src.len(), s.subrange(start, end)) =~= s);
}

} // verus!
