use vstd::prelude::*;

use crate::buffered::bufreader::buffer::DEFAULT_BUF_SIZE;

verus! {

/// A write stage kept in a vector with a set capacity: the vector holds the
/// bytes that wait to be flushed.
pub struct Buffer {
    buf: Vec<u8>,
    cap: usize,
}

impl Buffer {
    /// The waiting bytes fit in the capacity.
    pub closed spec fn wf(&self) -> bool {
        self.buf@.len() <= self.cap
    }

    /// The bytes waiting to be flushed.
    pub closed spec fn contents(&self) -> Seq<u8> {
        self.buf@
    }

    /// How many bytes the stage holds at most.
    pub closed spec fn spec_capacity(&self) -> usize {
        self.cap
    }

    /// An empty stage of `capacity` bytes.
    pub fn with_capacity(capacity: usize) -> (r: Self)
        ensures
            r.wf(),
            r.contents().len() == 0,
            r.spec_capacity() == capacity,
    {
        Self { buf: Vec::with_capacity(capacity), cap: capacity }
    }

    /// An empty stage of the default capacity.
    pub fn new() -> (r: Self)
        ensures
            r.wf(),
            r.contents().len() == 0,
            r.spec_capacity() == DEFAULT_BUF_SIZE,
    {
        Self::with_capacity(DEFAULT_BUF_SIZE)
    }

    /// How many bytes wait.
    pub fn len(&self) -> (r: usize)
        ensures
            r == self.contents().len(),
    {
        self.buf.len()
    }

    #[verifier::when_used_as_spec(spec_capacity)]
    pub fn capacity(&self) -> (r: usize)
        ensures
            r == self.spec_capacity(),
    {
        self.cap
    }

    /// How many more bytes fit.
    pub fn spare_capacity(&self) -> (r: usize)
        requires
            self.wf(),
        ensures
            r == self.spec_capacity() - self.contents().len(),
    {
        self.cap - self.buf.len()
    }

    /// The bytes that wait.
    pub fn as_slice(&self) -> (r: &[u8])
        ensures
            r@ == self.contents(),
    {
        self.buf.as_slice()
    }

    /// Adds as much of `data` as fits and returns how much that was.
    pub fn append(&mut self, data: &[u8]) -> (r: usize)
        requires
            old(self).wf(),
        ensures
            final(self).wf(),
            final(self).spec_capacity() == old(self).spec_capacity(),
            r == vstd::math::min(data@.len() as int, old(self).spec_capacity() - old(self).contents().len()),
            final(self).contents() == old(self).contents() + data@.take(r as int),
    {
        let room = self.cap - self.buf.len();
        let n = if data.len() < room { data.len() } else { room };
        self.buf.extend_from_slice(vstd::slice::slice_subrange(data, 0, n));
        proof {
            assert(self.buf@ =~= old(self).buf@ + data@.take(n as int));
        }
        n
    }

    /// Removes the first `amt` waiting bytes.
    pub fn consume(&mut self, amt: usize)
        requires
            old(self).wf(),
            amt <= old(self).contents().len(),
        ensures
            final(self).wf(),
            final(self).spec_capacity() == old(self).spec_capacity(),
            final(self).contents() == old(self).contents().skip(amt as int),
    {
        let rest = self.buf.split_off(amt);
        self.buf = rest;
        proof {
            assert(self.buf@ =~= old(self).buf@.skip(amt as int));
        }
    }
}

} // verus!
