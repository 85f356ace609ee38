use super::boundary::lemma_boundary_concat;
use super::lemma_encode_concat;
use super::Str;
use vstd::prelude::*;
use vstd::string::StringSliceAdditionalSpecFns;
use vstd::utf8::*;

verus! {

broadcast use {
    encode_utf8_valid_utf8,
    encode_utf8_decode_utf8,
    is_char_boundary_iff_not_is_continuation_byte,
    vstd::string::axiom_spec_iter,
    vstd::string::next_postcondition,
};

/// The UTF-8 encoding of a single character.
pub open spec fn char_bytes(c: char) -> Seq<u8> {
    encode_utf8(seq![c])
}

proof fn lemma_char_bytes(c: char)
    ensures
        char_bytes(c) == encode_scalar(c as u32),
        char_bytes(c).len() > 0,
{
    reveal_with_fuel(encode_utf8, 2);
    assert(seq![c].drop_first() =~= Seq::<char>::empty());
    assert(char_bytes(c) =~= encode_scalar(c as u32));
}

/// The first character of a non-empty string slice.
fn first_char(s: &str) -> (r: char)
    requires
        s@.len() > 0,
    ensures
        r == s@[0],
{
    let mut it = s.chars();
    match it.next() {
        Some(c) => c,
        None => vstd::pervasive::unreached(),
    }
}

/// Splits a non-empty string slice after its first character.
pub(super) fn split_first_char<'a>(s: &'a str) -> (r: (char, &'a str))
    requires
        s@.len() > 0,
    ensures
        r.0 == s@[0],
        r.1@ == s@.drop_first(),
        s.spec_bytes() == char_bytes(r.0) + r.1.spec_bytes(),
{
    let c = first_char(s);
    let bytes = s.as_bytes();
    let b0 = bytes[0];
    let w: usize = if b0 < 0x80 {
        1
    } else if b0 < 0xe0 {
        2
    } else if b0 < 0xf0 {
        3
    } else {
        4
    };
    let ghost chars = s@;
    proof {
        encode_utf8_first_scalar(chars);
        assert(encode_utf8(chars) =~= encode_scalar(chars[0] as u32) + encode_utf8(
            chars.drop_first(),
        ));
        assert(bytes@ == encode_utf8(chars));
        assert(b0 == bytes@[0]);
        assert(valid_first_scalar(bytes@));
        assert(w == length_of_first_scalar(bytes@));
        lemma_char_bytes(c);
        assert(is_char_boundary(bytes@, w as int)) by {
            reveal_with_fuel(is_char_boundary, 2);
            assert(pop_first_scalar(bytes@) =~= encode_utf8(chars.drop_first()));
            assert(valid_utf8(encode_utf8(chars.drop_first())));
            assert(bytes@.len() >= w);
        }
    }
    let (_, rest) = s.split_at(w);
    proof {
        assert(rest.spec_bytes() =~= encode_utf8(chars.drop_first()));
        assert(decode_utf8(encode_utf8(rest@)) == rest@);
    }
    (c, rest)
}

/// Splits a non-empty string slice before its last character.
pub(super) fn split_last_char<'a>(s: &'a str) -> (r: (&'a str, char))
    requires
        s@.len() > 0,
    ensures
        r.0@ == s@.drop_last(),
        r.1 == s@.last(),
        s.spec_bytes() == r.0.spec_bytes() + char_bytes(r.1),
{
    let ghost chars = s@;
    let ghost c = chars.last();
    let ghost init = encode_utf8(chars.drop_last());
    let ghost tail = char_bytes(c);
    let ghost q = init.len() as int;
    let bytes = s.as_bytes();
    proof {
        assert(chars =~= chars.drop_last() + seq![c]);
        lemma_encode_concat(chars.drop_last(), seq![c]);
        encode_utf8_first_scalar(seq![c]);
        lemma_char_bytes(c);
        lemma_boundary_concat(init, tail, q);
        is_char_boundary_start_end_of_seq(tail);
        assert forall|k: int| q < k < bytes@.len() implies is_continuation_byte(
            #[trigger] bytes@[k],
        ) by {
            lemma_boundary_concat(init, tail, k);
            assert(!is_char_boundary(tail, k - q));
        }
    }
    let mut p: usize = bytes.len() - 1;
    while bytes[p] >= 0x80 && bytes[p] <= 0xbf
        invariant
            q <= p < bytes@.len(),
            bytes@ == s.spec_bytes(),
            bytes@ == init + tail,
            !is_continuation_byte(bytes@[q]),
            forall|k: int| q < k < bytes@.len() ==> is_continuation_byte(#[trigger] bytes@[k]),
        decreases p,
    {
        p = p - 1;
    }
    proof {
        assert(is_char_boundary(s.spec_bytes(), p as int));
    }
    let (head, last) = s.split_at(p);
    proof {
        assert(head.spec_bytes() =~= init);
        assert(last.spec_bytes() =~= tail);
        assert(decode_utf8(encode_utf8(head@)) == head@);
        assert(decode_utf8(encode_utf8(last@)) == last@);
    }
    let ch = first_char(last);
    (head, ch)
}

/// Each character paired with the byte offset where it starts, counting from `base`.
pub open spec fn indexed(chars: Seq<char>, base: int) -> Seq<(int, char)> {
    Seq::new(chars.len(), |k: int| (base + encode_utf8(chars.subrange(0, k)).len(), chars[k]))
}

pub(super) proof fn lemma_indexed_drop_first(chars: Seq<char>, base: int)
    requires
        chars.len() > 0,
    ensures
        indexed(chars, base).drop_first() == indexed(
            chars.drop_first(),
            base + char_bytes(chars[0]).len(),
        ),
{
    let rest = chars.drop_first();
    lemma_char_bytes(chars[0]);
    assert forall|k: int| 0 <= k < rest.len() implies encode_utf8(chars.subrange(0, k + 1))
        == char_bytes(chars[0]) + encode_utf8(#[trigger] rest.subrange(0, k)) by {
        assert(chars.subrange(0, k + 1).drop_first() =~= rest.subrange(0, k));
    }
    assert(indexed(chars, base).drop_first() =~= indexed(rest, base + char_bytes(chars[0]).len()));
}

pub(super) proof fn lemma_indexed_drop_last(chars: Seq<char>, base: int)
    requires
        chars.len() > 0,
    ensures
        indexed(chars, base).drop_last() == indexed(chars.drop_last(), base),
        indexed(chars, base).last() == (
            base + encode_utf8(chars.drop_last()).len(),
            chars.last(),
        ),
{
    let init = chars.drop_last();
    assert forall|k: int| 0 <= k < init.len() implies #[trigger] chars.subrange(0, k)
        == init.subrange(0, k) by {
        assert(chars.subrange(0, k) =~= init.subrange(0, k));
    }
    assert(chars.subrange(0, chars.len() - 1) =~= init);
    assert(indexed(chars, base).drop_last() =~= indexed(init, base));
}

pub(super) proof fn lemma_indexed_concat(a: Seq<char>, b: Seq<char>, base: int)
    ensures
        indexed(a, base) + indexed(b, base + encode_utf8(a).len()) == indexed(a + b, base),
{
    assert forall|k: int| 0 <= k < b.len() implies encode_utf8(#[trigger] (a + b).subrange(
        0,
        a.len() + k,
    )) == encode_utf8(a) + encode_utf8(b.subrange(0, k)) by {
        assert((a + b).subrange(0, a.len() + k) =~= a + b.subrange(0, k));
        lemma_encode_concat(a, b.subrange(0, k));
    }
    assert forall|k: int| 0 <= k < a.len() implies #[trigger] (a + b).subrange(0, k)
        == a.subrange(0, k) by {
        assert((a + b).subrange(0, k) =~= a.subrange(0, k));
    }
    let lhs = indexed(a, base) + indexed(b, base + encode_utf8(a).len());
    let rhs = indexed(a + b, base);
    assert forall|k: int| 0 <= k < rhs.len() implies lhs[k] == rhs[k] by {
        if k >= a.len() {
            assert((a + b).subrange(0, a.len() + (k - a.len())) == (a + b).subrange(0, k));
        }
    }
    assert(lhs =~= rhs);
}

} // verus!
