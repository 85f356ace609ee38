//! A `Copy` half-open range of byte offsets.

use std::ops::{Range, RangeFrom, RangeTo};
use vstd::prelude::*;

verus! {

/// A (half-open) range which is bounded at both ends: { x | start <= x < end }.
#[derive(Debug, Clone, Copy, PartialEq, Eq, Structural, Hash)]
pub struct ByteRange {
    /// The lower bound of the range (inclusive).
    pub start: usize,
    /// The upper bound of the range (exclusive).
    pub end: usize,
}

impl ByteRange {
    /// Returns the length of the range.
    pub fn len(self) -> (r: usize)
        requires
            self.start <= self.end,
        ensures
            r == self.end - self.start,
    {
        self.end - self.start
    }

    /// Returns the range before this.
    pub fn before(self) -> (r: RangeTo<usize>)
        ensures
            r.end == self.start,
    {
        ..self.start
    }

    /// Returns the range after this.
    pub fn after(self) -> (r: RangeFrom<usize>)
        ensures
            r.start == self.end,
    {
        self.end..
    }
}

impl From<Range<usize>> for ByteRange {
    fn from(range: Range<usize>) -> (r: Self) {
        ByteRange { start: range.start, end: range.end }
    }
}

impl vstd::std_specs::convert::FromSpecImpl<Range<usize>> for ByteRange {
    open spec fn obeys_from_spec() -> bool {
        true
    }

    open spec fn from_spec(range: Range<usize>) -> Self {
        ByteRange { start: range.start, end: range.end }
    }
}

impl From<ByteRange> for Range<usize> {
    fn from(range: ByteRange) -> (r: Self) {
        range.start..range.end
    }
}

impl vstd::std_specs::convert::FromSpecImpl<ByteRange> for Range<usize> {
    open spec fn obeys_from_spec() -> bool {
        true
    }

    open spec fn from_spec(range: ByteRange) -> Self {
        range.start..range.end
    }
}

} // verus!
