//! Range extensions.
//!
//! The buffer addresses its content with half-open `Range<usize>` values. `IntoRange` lets callers
//! write `..`, `a..`, `..b` or `a..b` and resolves the open ends against a length, and `RangeExt`
//! holds the few helpers the buffer needs to shift and resize ranges.

use std::ops::{Range, RangeFrom, RangeFull, RangeTo};
use vstd::prelude::*;

verus! {

#[verifier::external_type_specification]
#[verifier::reject_recursive_types(Idx)]
pub struct ExRangeFrom<Idx>(RangeFrom<Idx>);

#[verifier::external_type_specification]
#[verifier::reject_recursive_types(Idx)]
pub struct ExRangeTo<Idx>(RangeTo<Idx>);

#[verifier::external_type_specification]
pub struct ExRangeFull(RangeFull);

/// True when `r` is a well-ordered range that lies within `0..len`.
pub open spec fn range_within(r: Range<usize>, len: nat) -> bool {
    r.start <= r.end && r.end <= len
}

/// The range that `r` stands for in content of length `len`.
pub open spec fn resolved<R: IntoRange>(r: R, len: nat) -> Range<usize> {
    r.spec_into_range(len as usize)
}

/// For converting different range types to `Range<usize>`.
pub trait IntoRange: Sized {
    /// The range that `into_range(end)` returns.
    spec fn spec_into_range(self, end: usize) -> Range<usize>;

    /// Converts to a `Range` with a default end point.
    fn into_range(self, end: usize) -> (r: Range<usize>)
        ensures
            r == self.spec_into_range(end),
    ;
}

impl IntoRange for Range<usize> {
    open spec fn spec_into_range(self, end: usize) -> Range<usize> {
        self
    }

    fn into_range(self, _end: usize) -> (r: Range<usize>) {
        self
    }
}

impl IntoRange for RangeFrom<usize> {
    open spec fn spec_into_range(self, end: usize) -> Range<usize> {
        self.start..end
    }

    fn into_range(self, end: usize) -> (r: Range<usize>) {
        self.start..end
    }
}

impl IntoRange for RangeFull {
    open spec fn spec_into_range(self, end: usize) -> Range<usize> {
        0..end
    }

    fn into_range(self, end: usize) -> (r: Range<usize>) {
        0..end
    }
}

impl IntoRange for RangeTo<usize> {
    open spec fn spec_into_range(self, end: usize) -> Range<usize> {
        0..self.end
    }

    fn into_range(self, _end: usize) -> (r: Range<usize>) {
        0..self.end
    }
}

/// Extensions for `Range<usize>`.
pub trait RangeExt: Sized {
    /// The range as a pair of bounds, for contracts.
    spec fn bounds(&self) -> (int, int);

    /// Returns the range before this.
    fn before(&self) -> (r: RangeTo<usize>)
        ensures
            r.end == self.bounds().0,
    ;

    /// Returns the range after this.
    fn after(&self) -> (r: RangeFrom<usize>)
        ensures
            r.start == self.bounds().1,
    ;

    /// Returns a range of length `len` with the same `start`.
    fn with_len(&self, len: usize) -> (r: Self)
        requires
            self.bounds().0 + len <= usize::MAX,
        ensures
            r.bounds() == (self.bounds().0, self.bounds().0 + len),
    ;

    /// Adds `len` to the starting point and end point.
    fn add(&self, len: usize) -> (r: Self)
        requires
            self.bounds().1 + len <= usize::MAX,
            self.bounds().0 + len <= usize::MAX,
        ensures
            r.bounds() == (self.bounds().0 + len, self.bounds().1 + len),
    ;

    /// Subtracts `len` from the starting point and end point.
    fn sub(&self, len: usize) -> (r: Self)
        requires
            len <= self.bounds().0,
            len <= self.bounds().1,
        ensures
            r.bounds() == (self.bounds().0 - len, self.bounds().1 - len),
    ;
}

impl RangeExt for Range<usize> {
    open spec fn bounds(&self) -> (int, int) {
        (self.start as int, self.end as int)
    }

    fn before(&self) -> (r: RangeTo<usize>) {
        ..self.start
    }

    fn after(&self) -> (r: RangeFrom<usize>) {
        self.end..
    }

    fn with_len(&self, len: usize) -> (r: Self) {
        self.start..(self.start + len)
    }

    fn add(&self, len: usize) -> (r: Self) {
        (self.start + len)..(self.end + len)
    }

    fn sub(&self, len: usize) -> (r: Self) {
        (self.start - len)..(self.end - len)
    }
}

} // verus!
