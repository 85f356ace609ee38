use super::Slice;
use vstd::prelude::*;

verus! {

impl<'a> Slice<'a> {
    /// Copies the slice into owned bytes.
    pub fn to_vec(&self) -> (r: Vec<u8>)
        ensures
            r@ == self@,
    {
        match *self {
            Slice::Contiguous(back) => vstd::slice::slice_to_vec(back),
            Slice::Fragmented(front, back) => {
                let mut vec = vstd::slice::slice_to_vec(front);
                vec.extend_from_slice(back);
                assert(vec@ =~= self@);
                vec
            },
        }
    }
}

} // verus!
