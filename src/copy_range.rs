//! `Copy` ranges.

use std::ops::{self, RangeFrom, RangeTo};
use vstd::prelude::*;

verus! {

/// A (half-open) range which is bounded at both ends: { x | start <= x < end }.
#[derive(Debug, Clone, Copy, PartialEq, Eq, Structural, Hash)]
pub struct Range {
    /// The lower bound of the range (inclusive).
    pub start: usize,
    /// The upper bound of the range (exclusive).
    pub end: usize,
}

impl Range {
    /// Returns the length of the range.
    pub fn len(self) -> (r: usize)
        requires
            self.start <= self.end,
        ensures
            r == self.end - self.start,
    {
        self.end - self.start
    }

    /// Returns the range before this.
    pub fn before(self) -> (r: RangeTo<usize>)
        ensures
            r.end == self.start,
    {
        ..self.start
    }

    /// Returns the range after this.
    pub fn after(self) -> (r: RangeFrom<usize>)
        ensures
            r.start == self.end,
    {
        self.end..
    }

    /// Shrinks the range to the specified length.
    pub fn shrink(self, len: usize) -> (r: Self)
        requires
            self.start + len <= usize::MAX,
        ensures
            r == (Range { start: self.start, end: (self.start + len) as usize }),
    {
        Range { start: self.start, end: self.start + len }
    }
}

impl From<ops::Range<usize>> for Range {
    fn from(range: ops::Range<usize>) -> (r: Self) {
        Range { start: range.start, end: range.end }
    }
}

impl vstd::std_specs::convert::FromSpecImpl<ops::Range<usize>> for Range {
    open spec fn obeys_from_spec() -> bool {
        true
    }

    open spec fn from_spec(range: ops::Range<usize>) -> Self {
        Range { start: range.start, end: range.end }
    }
}

impl From<Range> for ops::Range<usize> {
    fn from(range: Range) -> (r: Self) {
        range.start..range.end
    }
}

impl vstd::std_specs::convert::FromSpecImpl<Range> for ops::Range<usize> {
    open spec fn obeys_from_spec() -> bool {
        true
    }

    open spec fn from_spec(range: Range) -> Self {
        range.start..range.end
    }
}

} // verus!
