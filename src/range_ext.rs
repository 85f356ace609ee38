//! Range extensions.

use std::ops::{Range, RangeFrom, RangeTo};
use vstd::prelude::*;

verus! {

/// Extensions for `Range<usize>`.
pub trait RangeExt: Sized {
    /// The range as a pair of bounds, for contracts.
    spec fn bounds(&self) -> (int, int);

    /// Returns the range before this.
    fn before(&self) -> (r: RangeTo<usize>)
        ensures
            r.end == self.bounds().0,
    ;

    /// Returns the range after this.
    fn after(&self) -> (r: RangeFrom<usize>)
        ensures
            r.start == self.bounds().1,
    ;

    /// Returns a range of length `len` with the same `start`.
    fn resize_end(&self, len: usize) -> (r: Self)
        requires
            self.bounds().0 + len <= usize::MAX,
        ensures
            r.bounds() == (self.bounds().0, self.bounds().0 + len),
    ;

    /// Returns a range of length `len` with the same `end`.
    fn resize_start(&self, len: usize) -> (r: Self)
        requires
            len <= self.bounds().1,
        ensures
            r.bounds() == (self.bounds().1 - len, self.bounds().1),
    ;
}

impl RangeExt for Range<usize> {
    open spec fn bounds(&self) -> (int, int) {
        (self.start as int, self.end as int)
    }

    fn before(&self) -> (r: RangeTo<usize>) {
        ..self.start
    }

    fn after(&self) -> (r: RangeFrom<usize>) {
        self.end..
    }

    fn resize_end(&self, len: usize) -> (r: Self) {
        self.start..(self.start + len)
    }

    fn resize_start(&self, len: usize) -> (r: Self) {
        (self.end - len)..self.end
    }
}

} // verus!
