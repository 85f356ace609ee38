use super::chars::{
    indexed, lemma_indexed_concat, lemma_indexed_drop_first, lemma_indexed_drop_last,
    split_first_char, split_last_char,
};
use super::{Slice, Str};
use vstd::prelude::*;
use vstd::string::StringSliceAdditionalSpecFns;
use vstd::utf8::*;

verus! {

/// Which of an iterator's two parts may still hold items.
///
/// The iterator starts in `Both` when it has two parts. Once the front part runs dry from the
/// front, only the back part is left (`Back`); once the back part runs dry from the back, only
/// the front part is left (`Front`).
#[derive(Debug, Clone, Copy)]
enum State {
    Both,
    Front,
    Back,
}

/// Gap buffer iterator over the bytes of a slice, from either end.
///
/// Chains the part before the gap and the part after it.
#[derive(Debug, Clone)]
pub struct Iter<'a> {
    front: Option<&'a [u8]>,
    back: &'a [u8],
    state: State,
}

/// Splits off the first byte of `s`.
fn take_first<'a>(s: &'a [u8]) -> (r: (Option<u8>, &'a [u8]))
    ensures
        s@.len() > 0 ==> r.0 == Some(s@[0]) && r.1@ == s@.drop_first(),
        s@.len() == 0 ==> r.0 is None && r.1@ == s@,
{
    if s.len() > 0 {
        let rest = &s[1..s.len()];
        assert(rest@ =~= s@.drop_first());
        (Some(s[0]), rest)
    } else {
        (None, s)
    }
}

/// Splits off the last byte of `s`.
fn take_last<'a>(s: &'a [u8]) -> (r: (Option<u8>, &'a [u8]))
    ensures
        s@.len() > 0 ==> r.0 == Some(s@.last()) && r.1@ == s@.drop_last(),
        s@.len() == 0 ==> r.0 is None && r.1@ == s@,
{
    if s.len() > 0 {
        let n = s.len() - 1;
        let rest = &s[0..n];
        assert(rest@ =~= s@.drop_last());
        (Some(s[n]), rest)
    } else {
        (None, s)
    }
}

impl<'a> Iter<'a> {
    /// The front part is there whenever the state reads it, and a part that the state leaves
    /// out is exhausted.
    pub closed spec fn wf(&self) -> bool {
        match self.state {
            State::Both => self.front is Some,
            State::Front => self.front is Some && self.back@.len() == 0,
            State::Back => self.front is None || self.front->0@.len() == 0,
        }
    }

    /// The bytes still to come, in order from the front.
    pub closed spec fn remaining(&self) -> Seq<u8> {
        match self.front {
            Some(front) => front@ + self.back@,
            None => self.back@,
        }
    }

    // The front part, which the state says is there.
    fn front(&self) -> (r: &'a [u8])
        requires
            self.front is Some,
        ensures
            r == self.front->0,
    {
        match self.front {
            Some(front) => front,
            None => vstd::pervasive::unreached(),
        }
    }

    /// Returns the next byte from the front, or `None` when none is left.
    pub fn next(&mut self) -> (r: Option<u8>)
        requires
            old(self).wf(),
        ensures
            final(self).wf(),
            old(self).remaining().len() > 0 ==> r == Some(old(self).remaining()[0])
                && final(self).remaining() == old(self).remaining().drop_first(),
            old(self).remaining().len() == 0 ==> r is None && final(self).remaining() == old(
                self,
            ).remaining(),
    {
        let ghost rem = self.remaining();
        match self.state {
            State::Both => {
                let (item, rest) = take_first(self.front());
                if item.is_some() {
                    self.front = Some(rest);
                    assert(self.remaining() =~= rem.drop_first());
                    item
                } else {
                    self.state = State::Back;
                    let (item, rest) = take_first(self.back);
                    self.back = rest;
                    assert(rem =~= old(self).back@);
                    proof {
                        if rem.len() > 0 {
                            assert(self.remaining() =~= rem.drop_first());
                        }
                    }
                    item
                }
            },
            State::Front => {
                let (item, rest) = take_first(self.front());
                self.front = Some(rest);
                assert(rem =~= old(self).front->0@);
                assert(self.remaining() =~= rest@);
                item
            },
            State::Back => {
                let (item, rest) = take_first(self.back);
                self.back = rest;
                assert(rem =~= old(self).back@);
                assert(self.remaining() =~= rest@);
                item
            },
        }
    }

    /// Returns the next byte from the back, or `None` when none is left.
    pub fn next_back(&mut self) -> (r: Option<u8>)
        requires
            old(self).wf(),
        ensures
            final(self).wf(),
            old(self).remaining().len() > 0 ==> r == Some(old(self).remaining().last())
                && final(self).remaining() == old(self).remaining().drop_last(),
            old(self).remaining().len() == 0 ==> r is None && final(self).remaining() == old(
                self,
            ).remaining(),
    {
        let ghost rem = self.remaining();
        match self.state {
            State::Both => {
                let (item, rest) = take_last(self.back);
                if item.is_some() {
                    self.back = rest;
                    assert(self.remaining() =~= rem.drop_last());
                    item
                } else {
                    self.state = State::Front;
                    let (item, rest) = take_last(self.front());
                    self.front = Some(rest);
                    assert(rem =~= old(self).front->0@);
                    assert(self.remaining() =~= rest@);
                    item
                }
            },
            State::Front => {
                let (item, rest) = take_last(self.front());
                self.front = Some(rest);
                assert(rem =~= old(self).front->0@);
                assert(self.remaining() =~= rest@);
                item
            },
            State::Back => {
                let (item, rest) = take_last(self.back);
                self.back = rest;
                assert(rem =~= old(self).back@);
                proof {
                    if rem.len() > 0 {
                        assert(self.remaining() =~= rem.drop_last());
                    } else {
                        assert(self.remaining() =~= rem);
                    }
                }
                item
            },
        }
    }
}

impl<'a> Slice<'a> {
    /// Returns an iterator over the bytes of the slice.
    pub fn iter(&self) -> (r: Iter<'a>)
        ensures
            r.wf(),
            r.remaining() == self@,
    {
        match *self {
            Slice::Contiguous(back) => Iter { front: None, back: back, state: State::Back },
            Slice::Fragmented(front, back) => Iter {
                front: Some(front),
                back: back,
                state: State::Both,
            },
        }
    }
}

/// Splits off the first character of `s`.
fn take_first_char<'a>(s: &'a str) -> (r: (Option<char>, &'a str))
    ensures
        s@.len() > 0 ==> r.0 == Some(s@[0]) && r.1@ == s@.drop_first(),
        s@.len() == 0 ==> r.0 is None && r.1@ == s@,
{
    if s.is_empty() {
        (None, s)
    } else {
        let (c, rest) = split_first_char(s);
        (Some(c), rest)
    }
}

/// Splits off the last character of `s`.
fn take_last_char<'a>(s: &'a str) -> (r: (Option<char>, &'a str))
    ensures
        s@.len() > 0 ==> r.0 == Some(s@.last()) && r.1@ == s@.drop_last(),
        s@.len() == 0 ==> r.0 is None && r.1@ == s@,
{
    if s.is_empty() {
        (None, s)
    } else {
        let (rest, c) = split_last_char(s);
        (Some(c), rest)
    }
}

/// Iterator over the characters of a gap buffer string slice, from either end.
#[derive(Debug, Clone)]
pub struct Chars<'a> {
    front: Option<&'a str>,
    back: &'a str,
    state: State,
}

impl<'a> Chars<'a> {
    /// The front part is there whenever the state reads it, and a part that the state leaves
    /// out is exhausted.
    pub closed spec fn wf(&self) -> bool {
        match self.state {
            State::Both => self.front is Some,
            State::Front => self.front is Some && self.back@.len() == 0,
            State::Back => self.front is None || self.front->0@.len() == 0,
        }
    }

    /// The characters still to come, in order from the front.
    pub closed spec fn remaining(&self) -> Seq<char> {
        match self.front {
            Some(front) => front@ + self.back@,
            None => self.back@,
        }
    }

    // The front part, which the state says is there.
    fn front(&self) -> (r: &'a str)
        requires
            self.front is Some,
        ensures
            r == self.front->0,
    {
        match self.front {
            Some(front) => front,
            None => vstd::pervasive::unreached(),
        }
    }

    /// Returns the next character from the front, or `None` when none is left.
    pub fn next(&mut self) -> (r: Option<char>)
        requires
            old(self).wf(),
        ensures
            final(self).wf(),
            old(self).remaining().len() > 0 ==> r == Some(old(self).remaining()[0])
                && final(self).remaining() == old(self).remaining().drop_first(),
            old(self).remaining().len() == 0 ==> r is None && final(self).remaining() == old(
                self,
            ).remaining(),
    {
        let ghost rem = self.remaining();
        match self.state {
            State::Both => {
                let (item, rest) = take_first_char(self.front());
                if item.is_some() {
                    self.front = Some(rest);
                    assert(self.remaining() =~= rem.drop_first());
                    item
                } else {
                    self.state = State::Back;
                    let (item, rest) = take_first_char(self.back);
                    self.back = rest;
                    assert(rem =~= old(self).back@);
                    proof {
                        if rem.len() > 0 {
                            assert(self.remaining() =~= rem.drop_first());
                        }
                    }
                    item
                }
            },
            State::Front => {
                let (item, rest) = take_first_char(self.front());
                self.front = Some(rest);
                assert(rem =~= old(self).front->0@);
                assert(self.remaining() =~= rest@);
                item
            },
            State::Back => {
                let (item, rest) = take_first_char(self.back);
                self.back = rest;
                assert(rem =~= old(self).back@);
                assert(self.remaining() =~= rest@);
                item
            },
        }
    }

    /// Returns the next character from the back, or `None` when none is left.
    pub fn next_back(&mut self) -> (r: Option<char>)
        requires
            old(self).wf(),
        ensures
            final(self).wf(),
            old(self).remaining().len() > 0 ==> r == Some(old(self).remaining().last())
                && final(self).remaining() == old(self).remaining().drop_last(),
            old(self).remaining().len() == 0 ==> r is None && final(self).remaining() == old(
                self,
            ).remaining(),
    {
        let ghost rem = self.remaining();
        match self.state {
            State::Both => {
                let (item, rest) = take_last_char(self.back);
                if item.is_some() {
                    self.back = rest;
                    assert(self.remaining() =~= rem.drop_last());
                    item
                } else {
                    self.state = State::Front;
                    let (item, rest) = take_last_char(self.front());
                    self.front = Some(rest);
                    assert(rem =~= old(self).front->0@);
                    assert(self.remaining() =~= rest@);
                    item
                }
            },
            State::Front => {
                let (item, rest) = take_last_char(self.front());
                self.front = Some(rest);
                assert(rem =~= old(self).front->0@);
                assert(self.remaining() =~= rest@);
                item
            },
            State::Back => {
                let (item, rest) = take_last_char(self.back);
                self.back = rest;
                assert(rem =~= old(self).back@);
                proof {
                    if rem.len() > 0 {
                        assert(self.remaining() =~= rem.drop_last());
                    } else {
                        assert(self.remaining() =~= rem);
                    }
                }
                item
            },
        }
    }
}

/// Iterator for a gap buffer string's characters and their byte offsets.
#[derive(Debug, Clone)]
pub struct CharIndices<'a> {
    front_len: usize,
    front: Option<&'a str>,
    front_pos: usize,
    back: &'a str,
    back_pos: usize,
    state: State,
}

impl<'a> CharIndices<'a> {
    /// The state machine is consistent as for `Chars`, and every offset still to come fits in a
    /// `usize`.
    pub closed spec fn wf(&self) -> bool {
        &&& match self.state {
            State::Both => self.front is Some,
            State::Front => self.front is Some && self.back@.len() == 0,
            State::Back => self.front is None || self.front->0@.len() == 0,
        }
        &&& self.front matches Some(f) ==> self.front_pos + f.spec_bytes().len() <= self.front_len
        &&& self.front_len + self.back_pos + self.back.spec_bytes().len() <= usize::MAX
    }

    /// The characters still to come, in order from the front, each with the byte offset where
    /// it starts in the slice.
    pub closed spec fn remaining(&self) -> Seq<(int, char)> {
        let back = indexed(self.back@, self.front_len + self.back_pos);
        match self.front {
            Some(front) => indexed(front@, self.front_pos as int) + back,
            None => back,
        }
    }

    // The front part, which the state says is there.
    fn front(&self) -> (r: &'a str)
        requires
            self.front is Some,
        ensures
            r == self.front->0,
    {
        match self.front {
            Some(front) => front,
            None => vstd::pervasive::unreached(),
        }
    }

    // Turns an offset within the back part into one within the slice.
    fn map_back(&self, item: (usize, char)) -> (r: (usize, char))
        requires
            self.front_len + item.0 <= usize::MAX,
        ensures
            r == ((self.front_len + item.0) as usize, item.1),
    {
        let (index, ch) = item;
        (index + self.front_len, ch)
    }

    // Takes the first character of the front part, which holds one.
    fn pop_front_first(&mut self) -> (r: (usize, char))
        requires
            old(self).wf(),
            old(self).front matches Some(f) && f@.len() > 0,
        ensures
            final(self).wf(),
            final(self).state == old(self).state,
            r == (old(self).remaining()[0].0 as usize, old(self).remaining()[0].1),
            final(self).remaining() == old(self).remaining().drop_first(),
    {
        let ghost rem = self.remaining();
        let ghost back = indexed(self.back@, self.front_len + self.back_pos);
        let f = self.front();
        let (c, rest) = split_first_char(f);
        let index = self.front_pos;
        proof {
            lemma_indexed_drop_first(f@, index as int);
            assert(f@.subrange(0, 0) =~= Seq::<char>::empty());
            assert(rem =~= indexed(f@, index as int) + back);
        }
        self.front_pos = self.front_pos + (f.len() - rest.len());
        self.front = Some(rest);
        assert(self.remaining() =~= rem.drop_first());
        (index, c)
    }

    // Takes the last character of the front part, which holds one.
    fn pop_front_last(&mut self) -> (r: (usize, char))
        requires
            old(self).wf(),
            old(self).front matches Some(f) && f@.len() > 0,
            old(self).back@.len() == 0,
        ensures
            final(self).wf(),
            final(self).state == old(self).state,
            r == (old(self).remaining().last().0 as usize, old(self).remaining().last().1),
            final(self).remaining() == old(self).remaining().drop_last(),
    {
        let ghost rem = self.remaining();
        let f = self.front();
        let (init, c) = split_last_char(f);
        proof {
            lemma_indexed_drop_last(f@, self.front_pos as int);
            assert(self.back@ =~= Seq::<char>::empty());
            assert(rem =~= indexed(f@, self.front_pos as int));
        }
        let index = self.front_pos + init.len();
        self.front = Some(init);
        assert(self.remaining() =~= rem.drop_last());
        (index, c)
    }

    // Takes the first character of the back part, which holds one.
    fn pop_back_first(&mut self) -> (r: (usize, char))
        requires
            old(self).wf(),
            old(self).back@.len() > 0,
            old(self).front is None || old(self).front->0@.len() == 0,
        ensures
            final(self).wf(),
            final(self).state == old(self).state,
            final(self).front == old(self).front,
            r == (old(self).remaining()[0].0 as usize, old(self).remaining()[0].1),
            final(self).remaining() == old(self).remaining().drop_first(),
    {
        let ghost rem = self.remaining();
        let b = self.back;
        let (c, rest) = split_first_char(b);
        let index = self.back_pos;
        proof {
            lemma_indexed_drop_first(b@, self.front_len + index);
            assert(b@.subrange(0, 0) =~= Seq::<char>::empty());
            assert(rem =~= indexed(b@, self.front_len + index));
        }
        self.back_pos = self.back_pos + (b.len() - rest.len());
        self.back = rest;
        assert(self.remaining() =~= rem.drop_first());
        self.map_back((index, c))
    }

    // Takes the last character of the back part, which holds one.
    fn pop_back_last(&mut self) -> (r: (usize, char))
        requires
            old(self).wf(),
            old(self).back@.len() > 0,
        ensures
            final(self).wf(),
            final(self).state == old(self).state,
            final(self).front == old(self).front,
            r == (old(self).remaining().last().0 as usize, old(self).remaining().last().1),
            final(self).remaining() == old(self).remaining().drop_last(),
    {
        let ghost rem = self.remaining();
        let ghost head = match self.front {
            Some(front) => indexed(front@, self.front_pos as int),
            None => Seq::empty(),
        };
        let b = self.back;
        let (init, c) = split_last_char(b);
        proof {
            lemma_indexed_drop_last(b@, self.front_len + self.back_pos);
            assert(rem =~= head + indexed(b@, self.front_len + self.back_pos));
        }
        let index = self.back_pos + init.len();
        self.back = init;
        assert(self.remaining() =~= rem.drop_last());
        self.map_back((index, c))
    }

    /// Returns the next character from the front with its byte offset, or `None` when none is
    /// left.
    pub fn next(&mut self) -> (r: Option<(usize, char)>)
        requires
            old(self).wf(),
        ensures
            final(self).wf(),
            old(self).remaining().len() > 0 ==> r == Some(
                (old(self).remaining()[0].0 as usize, old(self).remaining()[0].1),
            ) && final(self).remaining() == old(self).remaining().drop_first(),
            old(self).remaining().len() == 0 ==> r is None && final(self).remaining() == old(
                self,
            ).remaining(),
    {
        let ghost rem = self.remaining();
        match self.state {
            State::Both => {
                if !self.front().is_empty() {
                    Some(self.pop_front_first())
                } else {
                    self.state = State::Back;
                    if self.back.is_empty() {
                        assert(self.remaining() =~= rem);
                        None
                    } else {
                        Some(self.pop_back_first())
                    }
                }
            },
            State::Front => {
                if !self.front().is_empty() {
                    Some(self.pop_front_first())
                } else {
                    None
                }
            },
            State::Back => {
                if self.back.is_empty() {
                    None
                } else {
                    Some(self.pop_back_first())
                }
            },
        }
    }

    /// Returns the next character from the back with its byte offset, or `None` when none is
    /// left.
    pub fn next_back(&mut self) -> (r: Option<(usize, char)>)
        requires
            old(self).wf(),
        ensures
            final(self).wf(),
            old(self).remaining().len() > 0 ==> r == Some(
                (old(self).remaining().last().0 as usize, old(self).remaining().last().1),
            ) && final(self).remaining() == old(self).remaining().drop_last(),
            old(self).remaining().len() == 0 ==> r is None && final(self).remaining() == old(
                self,
            ).remaining(),
    {
        match self.state {
            State::Both => {
                if !self.back.is_empty() {
                    Some(self.pop_back_last())
                } else {
                    self.state = State::Front;
                    if self.front().is_empty() {
                        None
                    } else {
                        Some(self.pop_front_last())
                    }
                }
            },
            State::Front => {
                if !self.front().is_empty() {
                    Some(self.pop_front_last())
                } else {
                    None
                }
            },
            State::Back => {
                if self.back.is_empty() {
                    None
                } else {
                    Some(self.pop_back_last())
                }
            },
        }
    }
}

impl<'a> Str<'a> {
    /// Returns an iterator over the chars of the string slice.
    pub fn chars(&self) -> (r: Chars<'a>)
        ensures
            r.wf(),
            r.remaining() == self@,
    {
        match *self {
            Str::Contiguous(back) => Chars { front: None, back: back, state: State::Back },
            Str::Fragmented(front, back) => Chars {
                front: Some(front),
                back: back,
                state: State::Both,
            },
        }
    }

    /// Returns an iterator over the chars of a slice, and their positions.
    pub fn char_indices(&self) -> (r: CharIndices<'a>)
        requires
            self.bytes().len() <= usize::MAX,
        ensures
            r.wf(),
            r.remaining() == indexed(self@, 0),
    {
        match *self {
            Str::Contiguous(back) => CharIndices {
                front_len: 0,
                front: None,
                front_pos: 0,
                back: back,
                back_pos: 0,
                state: State::Back,
            },
            Str::Fragmented(front, back) => {
                proof {
                    lemma_indexed_concat(front@, back@, 0);
                }
                CharIndices {
                    front_len: front.len(),
                    front: Some(front),
                    front_pos: 0,
                    back: back,
                    back_pos: 0,
                    state: State::Both,
                }
            },
        }
    }
}

} // verus!
