//! Laws that relate the buffer's operations to one another and to plain sequences.

use crate::gap::{spliced, Buffer, Slice, String};
use crate::range::range_within;
use std::ops::Range;
use vstd::prelude::*;

verus! {

/// Building a buffer from bytes and turning it back into bytes gives the same bytes.
pub proof fn lemma_round_trip_bytes(v: Vec<u8>, buffer: Buffer, w: Vec<u8>)
    requires
        call_ensures(Buffer::from_vec, (v,), buffer),
        call_ensures(Buffer::into_vec, (buffer,), w),
    ensures
        w@ == v@,
{
}

/// Building a gap string from text and turning it back into text gives the same text.
pub proof fn lemma_round_trip_text(
    s: std::string::String,
    string: String,
    t: std::string::String,
)
    requires
        call_ensures(String::from_std, (s,), string),
        call_ensures(String::into_std, (string,), t),
    ensures
        t@ == s@,
{
}

/// The range that slicing `b` out of the slice `a` addresses in the whole.
pub open spec fn composed(a: Range<usize>, b: Range<usize>) -> Range<usize> {
    ((a.start + b.start) as usize)..((a.start + b.end) as usize)
}

/// Slicing a slice of a buffer gives the same bytes as slicing the buffer once, with the two
/// ranges composed.
pub proof fn lemma_slice_composes(
    buffer: &Buffer,
    a: Range<usize>,
    b: Range<usize>,
    outer: Slice,
    inner: Slice,
    direct: Slice,
)
    requires
        buffer.wf(),
        range_within(a, buffer@.len()),
        range_within(b, (a.end - a.start) as nat),
        call_ensures(Buffer::slice::<Range<usize>>, (buffer, a), outer),
        call_ensures(Slice::slice::<Range<usize>>, (&outer, b), inner),
        call_ensures(Buffer::slice::<Range<usize>>, (buffer, composed(a, b)), direct),
    ensures
        inner@ == direct@,
{
    assert(inner@ =~= direct@);
}

/// One edit: the range it replaces, and the bytes it writes there.
pub struct Edit {
    /// First position replaced.
    pub start: int,
    /// Position just past the last one replaced.
    pub end: int,
    /// The bytes written in their place.
    pub src: Seq<u8>,
}

/// True when each edit, taken in turn, addresses a well-ordered range within the content as the
/// edits before it left it.
pub open spec fn edits_valid(s: Seq<u8>, edits: Seq<Edit>) -> bool
    decreases edits.len(),
{
    edits.len() > 0 ==> {
        &&& 0 <= edits[0].start <= edits[0].end <= s.len()
        &&& edits_valid(
            spliced(s, edits[0].start, edits[0].end, edits[0].src),
            edits.drop_first(),
        )
    }
}

/// The content after a run of splices on a buffer.
pub open spec fn splice_all(s: Seq<u8>, edits: Seq<Edit>) -> Seq<u8>
    decreases edits.len(),
{
    if edits.len() == 0 {
        s
    } else {
        splice_all(spliced(s, edits[0].start, edits[0].end, edits[0].src), edits.drop_first())
    }
}

/// Removes `n` elements at `at`, one at a time.
pub open spec fn delete_n(s: Seq<u8>, at: int, n: nat) -> Seq<u8>
    decreases n,
{
    if n == 0 {
        s
    } else {
        delete_n(s.remove(at), at, (n - 1) as nat)
    }
}

/// Inserts `src` at `at`, one element at a time starting from its last.
pub open spec fn insert_all(s: Seq<u8>, at: int, src: Seq<u8>) -> Seq<u8>
    decreases src.len(),
{
    if src.len() == 0 {
        s
    } else {
        insert_all(s.insert(at, src.last()), at, src.drop_last())
    }
}

/// One edit on a plain sequence: delete the range, then insert at its start.
pub open spec fn delete_then_insert(s: Seq<u8>, start: int, end: int, src: Seq<u8>) -> Seq<u8> {
    insert_all(delete_n(s, start, (end - start) as nat), start, src)
}

/// The content after a run of edits on a plain sequence.
pub open spec fn edit_all(s: Seq<u8>, edits: Seq<Edit>) -> Seq<u8>
    decreases edits.len(),
{
    if edits.len() == 0 {
        s
    } else {
        edit_all(
            delete_then_insert(s, edits[0].start, edits[0].end, edits[0].src),
            edits.drop_first(),
        )
    }
}

proof fn lemma_delete_n(s: Seq<u8>, at: int, n: nat)
    requires
        0 <= at,
        at + n <= s.len(),
    ensures
        delete_n(s, at, n) == s.subrange(0, at) + s.subrange(at + n, s.len() as int),
    decreases n,
{
    if n == 0 {
        assert(s =~= s.subrange(0, at) + s.subrange(at, s.len() as int));
    } else {
        let t = s.remove(at);
        lemma_delete_n(t, at, (n - 1) as nat);
        assert(t.subrange(0, at) =~= s.subrange(0, at));
        assert(t.subrange(at + n - 1, t.len() as int) =~= s.subrange(at + n, s.len() as int));
    }
}

proof fn lemma_insert_all(s: Seq<u8>, at: int, src: Seq<u8>)
    requires
        0 <= at <= s.len(),
    ensures
        insert_all(s, at, src) == s.subrange(0, at) + src + s.subrange(at, s.len() as int),
    decreases src.len(),
{
    if src.len() == 0 {
        assert(s =~= s.subrange(0, at) + src + s.subrange(at, s.len() as int));
    } else {
        let t = s.insert(at, src.last());
        lemma_insert_all(t, at, src.drop_last());
        assert(t.subrange(0, at) =~= s.subrange(0, at));
        assert(t.subrange(at, t.len() as int) =~= seq![src.last()] + s.subrange(at, s.len() as int));
        assert(src.drop_last() + (seq![src.last()] + s.subrange(at, s.len() as int)) =~= src
            + s.subrange(at, s.len() as int));
        assert(t.subrange(0, at) + src.drop_last() + t.subrange(at, t.len() as int)
            =~= s.subrange(0, at) + src + s.subrange(at, s.len() as int));
    }
}

/// A run of splices on a gap buffer leaves the content that the same edits leave on a plain
/// sequence when each deletes its range and then inserts at the range's start.
pub proof fn lemma_oracle_equivalence(s: Seq<u8>, edits: Seq<Edit>)
    requires
        edits_valid(s, edits),
    ensures
        splice_all(s, edits) == edit_all(s, edits),
    decreases edits.len(),
{
    if edits.len() > 0 {
        let e = edits[0];
        lemma_delete_n(s, e.start, (e.end - e.start) as nat);
        let d = delete_n(s, e.start, (e.end - e.start) as nat);
        lemma_insert_all(d, e.start, e.src);
        assert(d.subrange(0, e.start) =~= s.subrange(0, e.start));
        assert(d.subrange(e.start, d.len() as int) =~= s.subrange(e.end, s.len() as int));
        assert(delete_then_insert(s, e.start, e.end, e.src) == spliced(s, e.start, e.end, e.src));
        lemma_oracle_equivalence(spliced(s, e.start, e.end, e.src), edits.drop_first());
    }
}

} // verus!
