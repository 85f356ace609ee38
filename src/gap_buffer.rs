//! UTF-8 gap buffer.
//!
//! A simpler gap buffer than `gap::String`: the gap moves explicitly, and text is inserted at its
//! start.

use crate::copy_range::Range;
use crate::gap::{copy_within, fits_in_storage, from_utf8};
use vstd::prelude::*;
use vstd::string::StringSliceAdditionalSpecFns;
use vstd::utf8::*;

verus! {

broadcast use {encode_utf8_valid_utf8, valid_utf8_concat};

/// UTF-8 gap buffer.
pub struct GapBuffer {
    buf: Vec<u8>,
    gap: Range,
}

impl View for GapBuffer {
    type V = Seq<u8>;

    /// The UTF-8 bytes of the text: those before the gap, then those after it.
    closed spec fn view(&self) -> Seq<u8> {
        self.front() + self.back()
    }
}

impl GapBuffer {
    /// The gap lies within the storage, on a character boundary.
    pub closed spec fn wf(&self) -> bool {
        &&& self.gap.start <= self.gap.end <= self.buf@.len() <= usize::MAX
        &&& valid_utf8(self.front())
        &&& valid_utf8(self.back())
    }

    /// The text before the gap.
    pub closed spec fn front(&self) -> Seq<u8> {
        self.buf@.subrange(0, self.gap.start as int)
    }

    /// The text after the gap.
    pub closed spec fn back(&self) -> Seq<u8> {
        self.buf@.subrange(self.gap.end as int, self.buf@.len() as int)
    }

    /// The size of the storage: the text and the gap.
    pub closed spec fn storage_len(&self) -> int {
        self.buf@.len() as int
    }

    /// Creates an empty gap buffer.
    pub fn new() -> (r: Self)
        ensures
            r.wf(),
            r@ == Seq::<u8>::empty(),
            r.storage_len() == 0,
    {
        let r = GapBuffer { buf: Vec::new(), gap: Range::from(0..0) };
        assert(r.front() =~= Seq::<u8>::empty());
        assert(r.back() =~= Seq::<u8>::empty());
        r
    }

    /// Returns the length of the string.
    pub fn len(&self) -> (r: usize)
        requires
            self.wf(),
        ensures
            r == self@.len(),
    {
        self.buf.len() - self.gap.len()
    }

    /// Returns the two string slices before and after the gap.
    pub fn as_strs(&self) -> (r: (&str, &str))
        requires
            self.wf(),
        ensures
            r.0.spec_bytes() == self.front(),
            r.1.spec_bytes() == self.back(),
            r.0.spec_bytes() + r.1.spec_bytes() == self@,
    {
        let all = self.buf.as_slice();
        let before = &all[0..self.gap.start];
        let after = &all[self.gap.end..all.len()];
        match (from_utf8(before), from_utf8(after)) {
            (Some(a), Some(b)) => (a, b),
            _ => vstd::pervasive::unreached(),
        }
    }

    /// Moves the gap so that it starts at `index`, which lies on a character boundary.
    pub fn move_gap(&mut self, index: usize)
        requires
            old(self).wf(),
            index <= old(self)@.len(),
            is_char_boundary(old(self)@, index as int),
        ensures
            final(self).wf(),
            final(self)@ == old(self)@,
            final(self).front() == old(self)@.subrange(0, index as int),
            final(self).storage_len() == old(self).storage_len(),
    {
        let ghost content = self@;
        proof {
            valid_utf8_split(content, index as int);
        }
        if index > self.gap.start {
            let move_len = index - self.gap.start;
            copy_within(&mut self.buf, self.gap.end, self.gap.start, move_len);
            self.gap.start = self.gap.start + move_len;
            self.gap.end = self.gap.end + move_len;
        } else if index < self.gap.start {
            let move_len = self.gap.start - index;
            copy_within(&mut self.buf, index, self.gap.end - move_len, move_len);
            self.gap.start = self.gap.start - move_len;
            self.gap.end = self.gap.end - move_len;
        }
        assert(self.front() =~= content.subrange(0, index as int));
        assert(self.back() =~= content.subrange(index as int, content.len() as int));
        assert(self@ =~= content);
    }

    /// Inserts text at the start of the gap.
    pub fn insert(&mut self, src: &str)
        requires
            old(self).wf(),
            fits_in_storage(old(self).storage_len() + src.spec_bytes().len()),
        ensures
            final(self).wf(),
            final(self).front() == old(self).front() + src.spec_bytes(),
            final(self).back() == old(self).back(),
    {
        let ghost front = self.front();
        let ghost back = self.back();
        let bytes = src.as_bytes();
        if bytes.len() >= self.gap.len() {
            // Allocate additional space for `src` and a new gap.
            let old_len = self.buf.len();
            let gap_len = (old_len + bytes.len()) / 2;
            let additional = bytes.len() - self.gap.len() + gap_len;
            let new_len = old_len + additional;
            self.buf.resize(new_len, 0);
            assert(self.buf@.subrange(0, self.gap.start as int) =~= front);
            // Move `after` to the end of the buffer.
            let after_len = old_len - self.gap.end;
            copy_within(&mut self.buf, self.gap.end, self.gap.end + additional, after_len);
            self.gap.end = new_len - after_len;
            assert(self.front() =~= front);
            assert(self.back() =~= back);
        }
        let start = self.gap.start;
        let mut i: usize = 0;
        while i < bytes.len()
            invariant
                self.gap.start == start,
                self.gap.start + bytes@.len() <= self.gap.end <= self.buf@.len() <= usize::MAX,
                self.front() == front,
                self.back() == back,
                i <= bytes@.len(),
                forall|k: int| 0 <= k < i ==> #[trigger] self.buf@[start + k] == bytes@[k],
            decreases bytes@.len() - i,
        {
            self.buf[start + i] = bytes[i];
            i += 1;
            assert(self.front() =~= front);
            assert(self.back() =~= back);
        }
        assert forall|k: int| 0 <= k < start + bytes@.len() implies #[trigger] self.buf@[k] == (
        front + bytes@)[k] by {
            if k < start {
                assert(self.front()[k] == self.buf@[k]);
            } else {
                assert(self.buf@[start + (k - start)] == bytes@[k - start]);
            }
        }
        self.gap.start = self.gap.start + bytes.len();
        assert(self.front() =~= front + bytes@);
    }

    /// Builds a gap buffer holding a copy of `src`.
    pub fn from_str(src: &str) -> (r: Self)
        requires
            fits_in_storage(src.spec_bytes().len() as int),
        ensures
            r.wf(),
            r@ == src.spec_bytes(),
    {
        let mut buf = GapBuffer::new();
        buf.insert(src);
        assert(buf@ =~= src.spec_bytes());
        buf
    }

    /// Returns the text as an owned string.
    pub fn to_std_string(&self) -> (r: std::string::String)
        requires
            self.wf(),
        ensures
            encode_utf8(r@) == self@,
    {
        let (a, b) = self.as_strs();
        let mut s = a.to_owned();
        s.append(b);
        proof {
            crate::gap::lemma_encode_concat(a@, b@);
        }
        s
    }
}

impl Default for GapBuffer {
    fn default() -> (r: Self)
        ensures
            r.wf(),
            r@ == Seq::<u8>::empty(),
    {
        GapBuffer::new()
    }
}

} // verus!
