use super::Slice;
use crate::range::{range_within, resolved, IntoRange, RangeExt};
use std::ops::Range;
use vstd::prelude::*;

verus! {

/// `s` with the positions `start..end` replaced by `src`.
pub open spec fn spliced(s: Seq<u8>, start: int, end: int, src: Seq<u8>) -> Seq<u8> {
    s.subrange(0, start) + src + s.subrange(end, s.len() as int)
}

/// True when `len` bytes of content, with a gap of half their size beside them, fit in one
/// allocation. The buffer grows to that size when an insertion overflows its gap.
pub open spec fn fits_in_storage(len: int) -> bool {
    len + len / 2 <= isize::MAX
}

/// `buf` after its `n` bytes at `src` were copied to `dst`.
pub(crate) open spec fn moved(buf: Seq<u8>, src: int, dst: int, n: int) -> Seq<u8> {
    Seq::new(buf.len(), |i: int| if dst <= i < dst + n { buf[src + i - dst] } else { buf[i] })
}

/// Copies `n` bytes at `src` to `dst`. The two regions may overlap: the copy runs in the
/// direction that reads each byte before it is overwritten.
pub(crate) fn copy_within(buf: &mut Vec<u8>, src: usize, dst: usize, n: usize)
    requires
        src + n <= old(buf)@.len(),
        dst + n <= old(buf)@.len(),
        old(buf)@.len() <= usize::MAX,
    ensures
        final(buf)@ == moved(old(buf)@, src as int, dst as int, n as int),
{
    if dst <= src {
        let mut i: usize = 0;
        while i < n
            invariant
                i <= n,
                dst <= src,
                src + n <= buf@.len(),
                dst + n <= buf@.len(),
                buf@.len() == old(buf)@.len(),
                buf@.len() <= usize::MAX,
                forall|k: int|
                    0 <= k < buf@.len() ==> #[trigger] buf@[k] == if dst <= k < dst + i {
                        old(buf)@[src + k - dst]
                    } else {
                        old(buf)@[k]
                    },
            decreases n - i,
        {
            let b = buf[src + i];
            buf[dst + i] = b;
            i += 1;
        }
    } else {
        let mut i: usize = n;
        while i > 0
            invariant
                i <= n,
                src < dst,
                src + n <= buf@.len(),
                dst + n <= buf@.len(),
                buf@.len() == old(buf)@.len(),
                buf@.len() <= usize::MAX,
                forall|k: int|
                    0 <= k < buf@.len() ==> #[trigger] buf@[k] == if dst + i <= k < dst + n {
                        old(buf)@[src + k - dst]
                    } else {
                        old(buf)@[k]
                    },
            decreases i,
        {
            i -= 1;
            let b = buf[src + i];
            buf[dst + i] = b;
        }
    }
    assert(buf@ =~= moved(old(buf)@, src as int, dst as int, n as int));
}

/// Gap buffer.
pub struct Buffer {
    pub(super) buf: Vec<u8>,
    pub(super) gap: Range<usize>,
}

impl View for Buffer {
    type V = Seq<u8>;

    /// The content: the bytes before the gap, then the bytes after it.
    open spec fn view(&self) -> Seq<u8> {
        self.front() + self.back()
    }
}

impl Buffer {
    /// The gap lies within the storage.
    pub closed spec fn wf(&self) -> bool {
        self.gap.start <= self.gap.end <= self.buf@.len() <= usize::MAX
    }

    /// The content before the gap.
    pub closed spec fn front(&self) -> Seq<u8> {
        self.buf@.subrange(0, self.gap.start as int)
    }

    /// The content after the gap.
    pub closed spec fn back(&self) -> Seq<u8> {
        self.buf@.subrange(self.gap.end as int, self.buf@.len() as int)
    }

    /// The free space between the two segments.
    pub closed spec fn gap_len(&self) -> int {
        self.gap.end - self.gap.start
    }

    /// The content of a well-formed buffer fits in its storage, whose length is a `usize`.
    pub proof fn lemma_len_bound(&self)
        requires
            self.wf(),
        ensures
            self@.len() <= usize::MAX,
    {
    }

    /// Creates an empty buffer without allocating.
    ///
    /// A gap will be allocated when data is inserted.
    pub fn new() -> (r: Self)
        ensures
            r.wf(),
            r.front() == Seq::<u8>::empty(),
            r.back() == Seq::<u8>::empty(),
            r.gap_len() == 0,
    {
        let r = Buffer { buf: Vec::new(), gap: 0..0 };
        assert(r.front() =~= Seq::<u8>::empty());
        assert(r.back() =~= Seq::<u8>::empty());
        r
    }

    /// Creates a buffer with a pre-allocated gap.
    pub fn with_gap(gap: usize) -> (r: Self)
        ensures
            r.wf(),
            r.front() == Seq::<u8>::empty(),
            r.back() == Seq::<u8>::empty(),
            r.gap_len() == gap,
    {
        let mut buffer = Buffer { buf: Vec::new(), gap: 0..0 };
        buffer.resize_buf(gap);
        buffer.gap = 0..gap;
        assert(buffer.front() =~= Seq::<u8>::empty());
        assert(buffer.back() =~= Seq::<u8>::empty());
        buffer
    }

    /// Returns the length of the buffer, excluding the gap.
    pub fn len(&self) -> (r: usize)
        requires
            self.wf(),
        ensures
            r == self@.len(),
    {
        self.buf.len() - (self.gap.end - self.gap.start)
    }

    /// Returns `true` if the buffer contains no data.
    pub fn is_empty(&self) -> (r: bool)
        requires
            self.wf(),
        ensures
            r == (self@.len() == 0),
    {
        self.len() == 0
    }

    /// Returns a slice containing the entire buffer.
    ///
    /// The slice is contiguous when one of the two segments is empty, and fragmented otherwise,
    /// with the segment before the gap as its first part.
    pub fn as_slice(&self) -> (r: Slice<'_>)
        requires
            self.wf(),
        ensures
            r@ == self@,
            match r {
                Slice::Contiguous(_) => self.front().len() == 0 || self.back().len() == 0,
                Slice::Fragmented(front, back) => front@ == self.front() && back@ == self.back()
                    && front@.len() > 0 && back@.len() > 0,
            },
    {
        let all = self.buf.as_slice();
        if self.gap.start == 0 {
            let back = &all[self.gap.end..all.len()];
            assert(self@ =~= back@);
            Slice::Contiguous(back)
        } else if self.gap.end == all.len() {
            let front = &all[0..self.gap.start];
            assert(self@ =~= front@);
            Slice::Contiguous(front)
        } else {
            Slice::Fragmented(&all[0..self.gap.start], &all[self.gap.end..all.len()])
        }
    }

    /// Returns the segment before the gap, the length of the gap, and the segment after it,
    /// for diagnostics.
    pub fn segments(&self) -> (r: (&[u8], usize, &[u8]))
        requires
            self.wf(),
        ensures
            r.0@ == self.front(),
            r.1 == self.gap_len(),
            r.2@ == self.back(),
    {
        let all = self.buf.as_slice();
        (&all[0..self.gap.start], self.gap.end - self.gap.start, &all[self.gap.end..all.len()])
    }

    /// Returns a slice of the buffer.
    pub fn slice<R: IntoRange>(&self, range: R) -> (r: Slice<'_>)
        requires
            self.wf(),
            range_within(resolved(range, self@.len()), self@.len()),
        ensures
            r@ == self@.subrange(
                resolved(range, self@.len()).start as int,
                resolved(range, self@.len()).end as int,
            ),
    {
        self.as_slice().slice(range)
    }

    /// Replaces a slice of bytes. Destination and source can be different lengths.
    ///
    /// Returns the range of written bytes. Afterwards the gap sits right after them.
    pub fn splice<R: IntoRange>(&mut self, dest: R, src: &[u8]) -> (r: Range<usize>)
        requires
            old(self).wf(),
            range_within(resolved(dest, old(self)@.len()), old(self)@.len()),
            fits_in_storage(
                old(self)@.len() - resolved(dest, old(self)@.len()).end
                    + resolved(dest, old(self)@.len()).start + src@.len(),
            ),
        ensures
            final(self).wf(),
            final(self)@ == spliced(
                old(self)@,
                resolved(dest, old(self)@.len()).start as int,
                resolved(dest, old(self)@.len()).end as int,
                src@,
            ),
            final(self).front() == old(self)@.subrange(
                0,
                resolved(dest, old(self)@.len()).start as int,
            ) + src@,
            final(self).back() == old(self)@.subrange(
                resolved(dest, old(self)@.len()).end as int,
                old(self)@.len() as int,
            ),
            r.start == resolved(dest, old(self)@.len()).start,
            r.end == r.start + src@.len(),
    {
        let ghost content = self@;
        let dest = dest.into_range(self.len());
        if dest.start > self.gap.start {
            self.move_gap_up(dest.start);
        } else if dest.start < self.gap.start {
            self.move_gap_down(dest.start);
        }
        let ghost after = self.back();
        assert(after == content.subrange(dest.start as int, content.len() as int));
        self.gap.end = self.gap.end + (dest.end - dest.start);
        assert(self.back() =~= after.subrange(dest.end - dest.start, after.len() as int));
        assert(self.back() =~= content.subrange(dest.end as int, content.len() as int));
        if src.len() >= self.gap.end - self.gap.start {
            self.resize_to_fit(src.len());
        }
        self.copy_into_gap(src);
        assert(self@ =~= spliced(content, dest.start as int, dest.end as int, src@));
        dest.with_len(src.len())
    }

    // Extends the storage by `additional` bytes, which join whatever follows the gap.
    fn resize_buf(&mut self, additional: usize)
        requires
            old(self).buf@.len() + additional <= usize::MAX,
        ensures
            final(self).buf@.len() == old(self).buf@.len() + additional,
            final(self).buf@.subrange(0, old(self).buf@.len() as int) == old(self).buf@,
            final(self).gap == old(self).gap,
    {
        let new_len = self.buf.len() + additional;
        self.buf.resize(new_len, 0);
    }

    // Moves the gap up (higher index), so that it starts at `index`.
    pub(super) fn move_gap_up(&mut self, index: usize)
        requires
            old(self).wf(),
            old(self).gap.start <= index <= old(self)@.len(),
        ensures
            final(self).wf(),
            final(self).front() == old(self)@.subrange(0, index as int),
            final(self).back() == old(self)@.subrange(index as int, old(self)@.len() as int),
            final(self).gap_len() == old(self).gap_len(),
            final(self).buf@.len() == old(self).buf@.len(),
    {
        let ghost content = self@;
        let move_len = index - self.gap.start;
        copy_within(&mut self.buf, self.gap.end, self.gap.start, move_len);
        self.gap = self.gap.add(move_len);
        assert(self.front() =~= content.subrange(0, index as int));
        assert(self.back() =~= content.subrange(index as int, content.len() as int));
    }

    // Moves the gap down (lower index), so that it starts at `index`.
    fn move_gap_down(&mut self, index: usize)
        requires
            old(self).wf(),
            index <= old(self).gap.start,
        ensures
            final(self).wf(),
            final(self).front() == old(self)@.subrange(0, index as int),
            final(self).back() == old(self)@.subrange(index as int, old(self)@.len() as int),
            final(self).gap_len() == old(self).gap_len(),
            final(self).buf@.len() == old(self).buf@.len(),
    {
        let ghost content = self@;
        let move_len = self.gap.start - index;
        copy_within(&mut self.buf, index, self.gap.end - move_len, move_len);
        self.gap = self.gap.sub(move_len);
        assert(self.front() =~= content.subrange(0, index as int));
        assert(self.back() =~= content.subrange(index as int, content.len() as int));
    }

    // Reallocates with enough room for `fit` bytes and a new gap of half the resulting content.
    fn resize_to_fit(&mut self, fit: usize)
        requires
            old(self).wf(),
            old(self).gap_len() <= fit,
            fits_in_storage(old(self)@.len() + fit),
        ensures
            final(self).wf(),
            final(self).front() == old(self).front(),
            final(self).back() == old(self).back(),
            final(self).gap_len() == fit + (old(self)@.len() + fit) / 2,
    {
        let ghost front = self.front();
        let ghost back = self.back();
        let old_len = self.buf.len();
        let gap_len = (self.len() + fit) / 2;
        let additional = fit - (self.gap.end - self.gap.start) + gap_len;
        self.resize_buf(additional);
        assert(self.buf@.subrange(0, self.gap.start as int) =~= front);
        copy_within(&mut self.buf, self.gap.end, self.gap.end + additional, old_len - self.gap.end);
        self.gap.end = self.gap.end + additional;
        assert(self.front() =~= front);
        assert(self.back() =~= back);
    }

    // Copies data into the gap.
    fn copy_into_gap(&mut self, src: &[u8])
        requires
            old(self).wf(),
            src@.len() <= old(self).gap_len(),
        ensures
            final(self).wf(),
            final(self).front() == old(self).front() + src@,
            final(self).back() == old(self).back(),
    {
        let ghost front = self.front();
        let ghost back = self.back();
        let start = self.gap.start;
        let mut i: usize = 0;
        while i < src.len()
            invariant
                self.wf(),
                self.gap == old(self).gap,
                start == self.gap.start,
                src@.len() <= self.gap.end - self.gap.start,
                self.buf@.len() == old(self).buf@.len(),
                i <= src@.len(),
                forall|k: int|
                    0 <= k < self.buf@.len() ==> #[trigger] self.buf@[k] == if start <= k < start
                        + i {
                        src@[k - start]
                    } else {
                        old(self).buf@[k]
                    },
            decreases src@.len() - i,
        {
            self.buf[start + i] = src[i];
            i += 1;
        }
        self.gap.start = self.gap.start + src.len();
        assert(self.front() =~= front + src@);
        assert(self.back() =~= back);
    }
}

/// Relies on `Vec::capacity`: a vector can always hold at least as many elements as it has.
#[verifier::external_body]
fn capacity(v: &Vec<u8>) -> (r: usize)
    ensures
        r >= v@.len(),
{
    v.capacity()
}

impl Buffer {
    /// Builds a buffer from owned bytes, using the vector's extra capacity as the gap.
    pub fn from_vec(buf: Vec<u8>) -> (r: Buffer)
        ensures
            r.wf(),
            r@ == buf@,
            r.front() == buf@,
            r.back() == Seq::<u8>::empty(),
    {
        let mut buf = buf;
        let ghost content = buf@;
        let len = buf.len();
        let cap = capacity(&buf);
        buf.resize(cap, 0);
        let r = Buffer { buf: buf, gap: len..cap };
        assert(r.front() =~= content);
        assert(r.back() =~= Seq::<u8>::empty());
        r
    }

    /// Turns the buffer back into owned bytes. The gap moves to the end, where it becomes extra
    /// capacity.
    pub fn into_vec(self) -> (r: Vec<u8>)
        requires
            self.wf(),
        ensures
            r@ == self@,
    {
        let mut this = self;
        let len = this.len();
        this.move_gap_up(len);
        assert(this.front() == self@);
        let mut buf = this.buf;
        buf.truncate(len);
        assert(buf@ =~= self@);
        buf
    }

    /// Builds a buffer holding a copy of `slice`.
    pub fn from_slice(slice: &[u8]) -> (r: Buffer)
        requires
            fits_in_storage(slice@.len() as int),
        ensures
            r.wf(),
            r@ == slice@,
    {
        let mut buffer = Buffer::new();
        buffer.splice(.., slice);
        assert(buffer@ =~= slice@);
        buffer
    }
}

impl Default for Buffer {
    fn default() -> (r: Self)
        ensures
            r.wf(),
            r@ == Seq::<u8>::empty(),
    {
        Self::new()
    }
}

} // verus!
