use vstd::prelude::*;

use crate::buffered::bufreader::buffer::DEFAULT_BUF_SIZE;

verus! {

/// A write stage of fixed capacity: bytes `[0, len)` of the region wait to
/// be flushed. Consuming a prefix shifts the rest down in place.
pub struct Buffer {
    buf: [u8; DEFAULT_BUF_SIZE],
    pos: usize,
}

impl Buffer {
    /// The length is within the region.
    pub closed spec fn wf(&self) -> bool {
        self.pos <= DEFAULT_BUF_SIZE
    }

    /// The bytes waiting to be flushed.
    pub closed spec fn contents(&self) -> Seq<u8> {
        self.buf@.take(self.pos as int)
    }

    /// The whole region, waiting bytes first.
    pub closed spec fn region(&self) -> Seq<u8> {
        self.buf@
    }

    /// An empty stage.
    pub fn new() -> (r: Self)
        ensures
            r.wf(),
            r.contents().len() == 0,
    {
        let r = Self { buf: [0u8; DEFAULT_BUF_SIZE], pos: 0 };
        proof {
            assert(r.contents() =~= Seq::<u8>::empty());
        }
        r
    }

    /// How many bytes wait.
    pub fn len(&self) -> (r: usize)
        requires
            self.wf(),
        ensures
            r == self.contents().len(),
    {
        self.pos
    }

    /// How many bytes the stage holds at most.
    pub fn capacity(&self) -> (r: usize)
        ensures
            r == DEFAULT_BUF_SIZE,
    {
        DEFAULT_BUF_SIZE
    }

    /// How many more bytes fit.
    pub fn spare_capacity(&self) -> (r: usize)
        requires
            self.wf(),
        ensures
            r == DEFAULT_BUF_SIZE - self.contents().len(),
    {
        DEFAULT_BUF_SIZE - self.pos
    }

    /// The bytes that wait.
    pub fn as_slice(&self) -> (r: &[u8])
        requires
            self.wf(),
        ensures
            r@ == self.contents(),
    {
        vstd::slice::slice_subrange(self.buf.as_slice(), 0, self.pos)
    }

    /// Adds as much of `data` as fits and returns how much that was.
    pub fn append(&mut self, data: &[u8]) -> (r: usize)
        requires
            old(self).wf(),
        ensures
            final(self).wf(),
            r == vstd::math::min(data@.len() as int, DEFAULT_BUF_SIZE - old(self).contents().len()),
            final(self).contents() == old(self).contents() + data@.take(r as int),
    {
        let room = DEFAULT_BUF_SIZE - self.pos;
        let n = if data.len() < room { data.len() } else { room };
        let start = self.pos;
        let mut i: usize = 0;
        while i < n
            invariant
                self.pos == start,
                start + n <= DEFAULT_BUF_SIZE,
                n <= data@.len(),
                i <= n,
                forall|j: int| 0 <= j < start ==> self.buf@[j] == old(self).buf@[j],
                forall|j: int| 0 <= j < i ==> self.buf@[start + j] == data@[j],
            decreases n - i,
        {
            self.buf.set(start + i, data[i]);
            i += 1;
        }
        self.pos = start + n;
        proof {
            assert(self.contents() =~= old(self).contents() + data@.take(n as int));
        }
        n
    }

    /// Removes the first `amt` waiting bytes and moves the rest to the front.
    pub fn consume(&mut self, amt: usize)
        requires
            old(self).wf(),
            amt <= old(self).contents().len(),
        ensures
            final(self).wf(),
            final(self).contents() == old(self).contents().skip(amt as int),
    {
        let remaining = self.pos - amt;
        let ghost rest = old(self).contents().skip(amt as int);
        let mut i: usize = 0;
        while i < remaining
            invariant
                self.pos == old(self).pos,
                self.pos <= DEFAULT_BUF_SIZE,
                remaining + amt == self.pos,
                rest.len() == remaining,
                i <= remaining,
                forall|j: int| 0 <= j < i ==> self.buf@[j] == rest[j],
                forall|j: int| i + amt <= j < self.pos ==> self.buf@[j] == rest[j - amt],
            decreases remaining - i,
        {
            let b = self.buf[i + amt];
            self.buf.set(i, b);
            i += 1;
        }
        self.pos = remaining;
        proof {
            assert(self.contents() =~= rest);
        }
    }

    /// The free tail of the region, to write into before `set_len`.
    pub fn spare_capacity_mut(&mut self) -> (r: &mut [u8])
        requires
            old(self).wf(),
        ensures
            final(self).wf(),
            r@ == old(self).region().skip(old(self).contents().len() as int),
            r@.len() == DEFAULT_BUF_SIZE - old(self).contents().len(),
            final(self).contents() == old(self).contents(),
            final(self).region() == old(self).contents() + final(r)@,
    {
        let pos = self.pos;
        let whole: &mut [u8] = &mut self.buf;
        let (_, tail) = whole.split_at_mut(pos);
        tail
    }

    /// Makes the first `new_len` bytes of the region the waiting ones. The
    /// whole region is always initialized, so any length up to the capacity
    /// is safe.
    pub fn set_len(&mut self, new_len: usize)
        requires
            new_len <= DEFAULT_BUF_SIZE,
        ensures
            final(self).wf(),
            final(self).region() == old(self).region(),
            final(self).contents() == old(self).region().take(new_len as int),
    {
        self.pos = new_len;
    }
}

} // verus!
