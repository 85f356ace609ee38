//! Facts about UTF-8 character boundaries across the two segments of a buffer.

use vstd::prelude::*;
use vstd::utf8::*;

verus! {

broadcast use {
    is_char_boundary_start_end_of_seq,
    is_char_boundary_iff_not_is_continuation_byte,
    valid_utf8_concat,
};

/// In two valid segments laid end to end, an index is a boundary of the whole exactly when it is
/// one of the segment that holds it.
pub proof fn lemma_boundary_concat(front: Seq<u8>, back: Seq<u8>, i: int)
    requires
        valid_utf8(front),
        valid_utf8(back),
        0 <= i,
    ensures
        valid_utf8(front + back),
        is_char_boundary(front + back, i) == if i < front.len() {
            is_char_boundary(front, i)
        } else {
            is_char_boundary(back, i - front.len())
        },
{
    let whole = front + back;
    assert(valid_utf8(whole));
    is_char_boundary_start_end_of_seq(whole);
    is_char_boundary_start_end_of_seq(front);
    is_char_boundary_start_end_of_seq(back);
    let j = i - front.len();
    if i == 0 {
    } else if i < front.len() {
        assert(whole[i] == front[i]);
        is_char_boundary_iff_not_is_continuation_byte(whole, i);
        is_char_boundary_iff_not_is_continuation_byte(front, i);
    } else if i == whole.len() {
        assert(j == back.len());
    } else if i > whole.len() {
        assert(j > back.len());
        assert(!is_char_boundary(whole, i));
        assert(!is_char_boundary(back, j));
    } else {
        assert(whole[i] == back[j]);
        is_char_boundary_iff_not_is_continuation_byte(whole, i);
        is_char_boundary_iff_not_is_continuation_byte(back, j);
    }
}

/// A boundary of a valid sequence is a boundary of every prefix that still holds it.
pub proof fn lemma_boundary_prefix(bytes: Seq<u8>, end: int, i: int)
    requires
        valid_utf8(bytes),
        is_char_boundary(bytes, end),
        0 <= i <= end,
    ensures
        valid_utf8(bytes.subrange(0, end)),
        is_char_boundary(bytes.subrange(0, end), i) == is_char_boundary(bytes, i),
{
    valid_utf8_split(bytes, end);
    let prefix = bytes.subrange(0, end);
    is_char_boundary_start_end_of_seq(prefix);
    is_char_boundary_start_end_of_seq(bytes);
    if 0 < i < end {
        assert(prefix[i] == bytes[i]);
        is_char_boundary_iff_not_is_continuation_byte(prefix, i);
        is_char_boundary_iff_not_is_continuation_byte(bytes, i);
    }
}

/// Splitting a valid sequence at a boundary leaves two valid sequences.
pub proof fn lemma_split(bytes: Seq<u8>, i: int)
    requires
        valid_utf8(bytes),
        is_char_boundary(bytes, i),
    ensures
        0 <= i <= bytes.len(),
        valid_utf8(bytes.subrange(0, i)),
        valid_utf8(bytes.subrange(i, bytes.len() as int)),
{
    valid_utf8_split(bytes, i);
    if i < 0 || i > bytes.len() {
        assert(!is_char_boundary(bytes, i));
    }
}

} // verus!
