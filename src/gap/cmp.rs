use super::{Buffer, Slice};
use vstd::prelude::*;

verus! {

/// Compares two byte slices element by element.
pub fn bytes_eq(a: &[u8], b: &[u8]) -> (r: bool)
    ensures
        r == (a@ == b@),
{
    if a.len() != b.len() {
        return false;
    }
    let mut i: usize = 0;
    while i < a.len()
        invariant
            a@.len() == b@.len(),
            i <= a@.len(),
            a@.subrange(0, i as int) == b@.subrange(0, i as int),
        decreases a@.len() - i,
    {
        if a[i] != b[i] {
            return false;
        }
        assert(a@.subrange(0, i + 1) =~= a@.subrange(0, i as int).push(a@[i as int]));
        assert(b@.subrange(0, i + 1) =~= b@.subrange(0, i as int).push(b@[i as int]));
        i += 1;
    }
    assert(a@ =~= a@.subrange(0, i as int));
    assert(b@ =~= b@.subrange(0, i as int));
    true
}

impl<'a> Slice<'a> {
    /// Returns `true` if the slice holds exactly the bytes of `other`, without copying the slice.
    pub fn eq_bytes(&self, other: &[u8]) -> (r: bool)
        ensures
            r == (self@ == other@),
    {
        match *self {
            Slice::Contiguous(back) => bytes_eq(back, other),
            Slice::Fragmented(front, back) => {
                if front.len() > other.len() || back.len() != other.len() - front.len() {
                    return false;
                }
                let r = bytes_eq(front, &other[0..front.len()]) && bytes_eq(
                    back,
                    &other[front.len()..other.len()],
                );
                proof {
                    let n = front@.len() as int;
                    assert(other@ =~= other@.subrange(0, n) + other@.subrange(n, other@.len() as int));
                    if self@ == other@ {
                        assert(front@ =~= self@.subrange(0, n));
                        assert(back@ =~= self@.subrange(n, self@.len() as int));
                    }
                }
                r
            },
        }
    }
}

impl<'a> PartialEq<[u8]> for Slice<'a> {
    fn eq(&self, other: &[u8]) -> (r: bool) {
        self.eq_bytes(other)
    }
}

impl<'a> vstd::std_specs::cmp::PartialEqSpecImpl<[u8]> for Slice<'a> {
    open spec fn obeys_eq_spec() -> bool {
        true
    }

    open spec fn eq_spec(&self, other: &[u8]) -> bool {
        self@ == other@
    }
}

impl Buffer {
    /// Returns `true` if the buffer holds exactly the bytes of `other`.
    pub fn eq_bytes(&self, other: &[u8]) -> (r: bool)
        requires
            self.wf(),
        ensures
            r == (self@ == other@),
    {
        self.as_slice().eq_bytes(other)
    }
}

} // verus!
