use vstd::prelude::*;

use crate::error::Result;
use crate::read::{read_step, Read};

verus! {

/// Capacity of a window made by `Buffer::new`.
pub const DEFAULT_BUF_SIZE: usize = 1024;

/// The read window: one region of fixed capacity with three watermarks,
/// `pos <= filled <= initialized <= capacity`.
///
/// Bytes in `[pos, filled)` are available; those in `[0, pos)` were consumed
/// and are still there; `initialized` is the highest `filled` ever reached.
/// The whole region is zeroed once, when the window is made.
pub struct Buffer {
    buf: Vec<u8>,
    pos: usize,
    filled: usize,
    initialized: usize,
}

impl Buffer {
    /// The watermarks are in order and within the region.
    pub closed spec fn wf(&self) -> bool {
        &&& self.pos <= self.filled <= self.initialized <= self.buf@.len()
        &&& self.buf@.len() <= usize::MAX
    }

    pub closed spec fn spec_capacity(&self) -> usize {
        self.buf@.len() as usize
    }

    pub closed spec fn spec_pos(&self) -> usize {
        self.pos
    }

    pub closed spec fn spec_filled(&self) -> usize {
        self.filled
    }

    pub closed spec fn spec_initialized(&self) -> usize {
        self.initialized
    }

    /// The bytes of `[0, filled)`, consumed or not.
    pub closed spec fn filled_bytes(&self) -> Seq<u8> {
        self.buf@.take(self.filled as int)
    }

    /// The available bytes, `[pos, filled)`.
    pub open spec fn available(&self) -> Seq<u8> {
        self.filled_bytes().skip(self.spec_pos() as int)
    }

    /// What `wf` says of the public watermarks.
    pub proof fn lemma_window(&self)
        requires
            self.wf(),
        ensures
            self.spec_pos() <= self.spec_filled() <= self.spec_initialized() <= self.spec_capacity(),
            self.available().len() == self.spec_filled() - self.spec_pos(),
            self.filled_bytes().len() == self.spec_filled(),
    {
    }

    /// A window of the default capacity.
    pub fn new() -> (r: Self)
        ensures
            r.wf(),
            r.spec_capacity() == DEFAULT_BUF_SIZE,
            r.spec_pos() == 0 && r.spec_filled() == 0 && r.spec_initialized() == 0,
            r.available().len() == 0,
    {
        Self::with_capacity(DEFAULT_BUF_SIZE)
    }

    /// A window of `capacity` bytes, empty.
    pub fn with_capacity(capacity: usize) -> (r: Self)
        ensures
            r.wf(),
            r.spec_capacity() == capacity,
            r.spec_pos() == 0 && r.spec_filled() == 0 && r.spec_initialized() == 0,
            r.available().len() == 0,
    {
        let buf = vec![0u8; capacity];
        Self { buf, pos: 0, filled: 0, initialized: 0 }
    }

    /// The available bytes.
    pub fn buffer(&self) -> (r: &[u8])
        requires
            self.wf(),
        ensures
            r@ == self.available(),
    {
        let r = vstd::slice::slice_subrange(self.buf.as_slice(), self.pos, self.filled);
        proof {
            assert(r@ =~= self.available());
        }
        r
    }

    #[verifier::when_used_as_spec(spec_capacity)]
    pub fn capacity(&self) -> (r: usize)
        ensures
            r == self.spec_capacity(),
    {
        self.buf.len()
    }

    #[verifier::when_used_as_spec(spec_filled)]
    pub fn filled(&self) -> (r: usize)
        ensures
            r == self.spec_filled(),
    {
        self.filled
    }

    #[verifier::when_used_as_spec(spec_pos)]
    pub fn pos(&self) -> (r: usize)
        ensures
            r == self.spec_pos(),
    {
        self.pos
    }

    #[verifier::when_used_as_spec(spec_initialized)]
    pub fn initialized(&self) -> (r: usize)
        ensures
            r == self.spec_initialized(),
    {
        self.initialized
    }

    /// Drops the available bytes; `initialized` stays.
    pub fn discard_buffer(&mut self)
        requires
            old(self).wf(),
        ensures
            final(self).wf(),
            final(self).spec_pos() == 0 && final(self).spec_filled() == 0,
            final(self).spec_initialized() == old(self).spec_initialized(),
            final(self).spec_capacity() == old(self).spec_capacity(),
            final(self).available().len() == 0,
    {
        self.pos = 0;
        self.filled = 0;
    }

    /// Marks `amt` available bytes as consumed; more than are available
    /// consumes them all.
    pub fn consume(&mut self, amt: usize)
        requires
            old(self).wf(),
        ensures
            final(self).wf(),
            final(self).spec_pos() == vstd::math::min(old(self).spec_pos() + amt, old(self).spec_filled() as int),
            final(self).spec_filled() == old(self).spec_filled(),
            final(self).spec_initialized() == old(self).spec_initialized(),
            final(self).spec_capacity() == old(self).spec_capacity(),
            final(self).filled_bytes() == old(self).filled_bytes(),
            final(self).available() == old(self).available().skip(vstd::math::min(amt as int, old(self).available().len() as int)),
    {
        if amt >= self.filled - self.pos {
            self.pos = self.filled;
        } else {
            self.pos = self.pos + amt;
        }
        proof {
            assert(final(self).available() =~= old(self).available().skip(vstd::math::min(amt as int, old(self).available().len() as int)));
        }
    }

    /// When `amt` bytes are available, shows them to `visitor`, consumes
    /// them and returns true; otherwise changes nothing and returns false.
    /// `visitor` need accept nothing but those `amt` bytes.
    pub fn consume_with<V>(&mut self, amt: usize, mut visitor: V) -> (r: bool) where V: FnMut(&[u8])
        requires
            old(self).wf(),
            forall|s: &[u8]| s@ == old(self).available().take(amt as int) ==> call_requires(visitor, (s,)),
        ensures
            final(self).wf(),
            r == (amt <= old(self).available().len()),
            r ==> final(self).available() == old(self).available().skip(amt as int),
            r ==> final(self).spec_pos() == old(self).spec_pos() + amt,
            !r ==> *final(self) == *old(self),
            final(self).filled_bytes() == old(self).filled_bytes(),
            final(self).spec_filled() == old(self).spec_filled(),
            final(self).spec_initialized() == old(self).spec_initialized(),
            final(self).spec_capacity() == old(self).spec_capacity(),
    {
        if amt <= self.filled - self.pos {
            let claimed = vstd::slice::slice_subrange(self.buf.as_slice(), self.pos, self.pos + amt);
            proof {
                assert(claimed@ =~= old(self).available().take(amt as int));
            }
            visitor(claimed);
            self.pos = self.pos + amt;
            proof {
                assert(final(self).available() =~= old(self).available().skip(amt as int));
            }
            true
        } else {
            false
        }
    }

    /// Steps `pos` back by `amt`, stopping at the start of the region, so
    /// that consumed bytes become available again.
    pub fn unconsume(&mut self, amt: usize)
        requires
            old(self).wf(),
        ensures
            final(self).wf(),
            final(self).spec_pos() == if amt <= old(self).spec_pos() { old(self).spec_pos() - amt } else { 0 },
            final(self).available() == old(self).filled_bytes().skip(final(self).spec_pos() as int),
            final(self).filled_bytes() == old(self).filled_bytes(),
            final(self).spec_filled() == old(self).spec_filled(),
            final(self).spec_initialized() == old(self).spec_initialized(),
            final(self).spec_capacity() == old(self).spec_capacity(),
    {
        self.pos = self.pos.saturating_sub(amt);
    }

    /// Reads more bytes from `reader` into the free tail `[filled, capacity)`
    /// and keeps what is available; returns how many arrived.
    pub fn read_more<R: Read>(&mut self, reader: &mut R) -> (r: Result<usize>)
        requires
            old(self).wf(),
            old(reader).wf(),
        ensures
            final(reader).wf(),
            final(self).wf(),
            read_step(
                old(reader).pending(),
                final(reader).pending(),
                old(self).spec_capacity() - old(self).spec_filled(),
                final(self).available().skip(old(self).available().len() as int),
                r,
            ),
            final(self).spec_pos() == old(self).spec_pos(),
            final(self).spec_capacity() == old(self).spec_capacity(),
            r matches Ok(n) ==> final(self).spec_filled() == old(self).spec_filled() + n
                && final(self).available() == old(self).available() + old(reader).pending().take(n as int),
            r is Err ==> final(self).available() == old(self).available(),
            r is Err ==> final(self).spec_filled() == old(self).spec_filled(),
            final(self).spec_initialized() == vstd::math::max(
                old(self).spec_initialized() as int,
                final(self).spec_filled() as int,
            ),
            final(reader).infallible() == old(reader).infallible(),
            final(reader).greedy() == old(reader).greedy(),
            old(reader).infallible() || old(reader).greedy() ==> r is Ok,
            old(reader).greedy() ==> r == Ok::<usize, crate::error::Error>(vstd::math::min(
                old(self).spec_capacity() - old(self).spec_filled(),
                old(reader).pending().len() as int,
            ) as usize),
    {
        let filled = self.filled;
        let ghost old_buf = self.buf@;
        let (_, tail) = self.buf.as_mut_slice().split_at_mut(filled);
        let ghost tail_before = tail@;
        assert(tail_before.len() == old(self).spec_capacity() - old(self).spec_filled());
        let r = reader.read(tail);
        proof {
            assert(self.buf@.take(filled as int) =~= old_buf.take(filled as int));
        }
        match r {
            Ok(n) => {
                self.filled = self.filled + n;
                if self.initialized < self.filled {
                    self.initialized = self.filled;
                }
                proof {
                    assert(self.buf@.skip(filled as int) == tail@);
                    let old_avail = old(self).available();
                    assert(final(self).available() =~= old_avail + tail@.take(n as int)) by {
                        assert forall|i: int| 0 <= i < final(self).available().len() implies
                            final(self).available()[i] == (old_avail + tail@.take(n as int))[i] by {
                            let p = self.pos as int;
                            if p + i >= filled {
                                assert(self.buf@[p + i] == self.buf@.skip(filled as int)[p + i - filled]);
                            } else {
                                assert(self.buf@[p + i] == self.buf@.take(filled as int)[p + i]);
                                assert(old_buf[p + i] == old_buf.take(filled as int)[p + i]);
                            }
                        }
                    }
                    assert(final(self).available().skip(old_avail.len() as int) =~= tail@.take(n as int));
                    assert(tail@.take(n as int).take(n as int) =~= tail@.take(n as int));
                }
                Ok(n)
            },
            Err(e) => {
                proof {
                    assert(final(self).available() =~= old(self).available());
                }
                Err(e)
            },
        }
    }

    /// Moves the available bytes to the start of the region, so that the
    /// whole tail after them is free.
    pub fn backshift(&mut self)
        requires
            old(self).wf(),
        ensures
            final(self).wf(),
            final(self).spec_pos() == 0,
            final(self).spec_filled() == old(self).spec_filled() - old(self).spec_pos(),
            final(self).available() == old(self).available(),
            final(self).spec_initialized() == old(self).spec_initialized(),
            final(self).spec_capacity() == old(self).spec_capacity(),
    {
        let pos = self.pos;
        let len = self.filled - pos;
        let ghost avail = old(self).available();
        let mut i: usize = 0;
        // Copying front to back is safe here: the destination `i` never
        // passes the source `pos + i`, so no byte is overwritten before it
        // has been read.
        while i < len
            invariant
                self.wf(),
                self.pos == pos,
                self.filled == pos + len,
                self.initialized == old(self).initialized,
                self.buf@.len() == old(self).buf@.len(),
                i <= len,
                avail.len() == len,
                forall|j: int| 0 <= j < i ==> self.buf@[j] == avail[j],
                forall|j: int| pos + i <= j < pos + len ==> self.buf@[j] == avail[j - pos],
            decreases len - i,
        {
            let b = self.buf[pos + i];
            self.buf.set(i, b);
            i += 1;
        }
        self.filled = len;
        self.pos = 0;
        proof {
            assert(final(self).available() =~= avail);
        }
    }

    /// Returns the available bytes, first refilling the whole region from
    /// `reader` when none are left. A window that still holds bytes is left
    /// as it is and `reader` is not touched.
    pub fn fill_buf<R: Read>(&mut self, reader: &mut R) -> (r: Result<&[u8]>)
        requires
            old(self).wf(),
            old(reader).wf(),
        ensures
            final(reader).wf(),
            final(self).wf(),
            final(self).spec_capacity() == old(self).spec_capacity(),
            old(self).available().len() > 0 ==> *final(self) == *old(self) && *final(reader) == *old(reader),
            old(self).available().len() == 0 ==> read_step(
                old(reader).pending(),
                final(reader).pending(),
                old(self).spec_capacity() as int,
                final(self).available(),
                match r {
                    Ok(s) => Ok(s@.len() as usize),
                    Err(e) => Err(e),
                },
            ),
            old(self).available().len() == 0 ==> final(self).spec_pos() == 0,
            old(self).available().len() == 0 && r is Ok ==> final(self).available() == old(reader).pending().take(final(self).available().len() as int),
            r matches Ok(s) ==> s@ == final(self).available(),
            r is Err ==> final(self).available().len() == 0,
            old(self).available().len() == 0 ==> final(self).spec_initialized() == vstd::math::max(
                old(self).spec_initialized() as int,
                final(self).spec_filled() as int,
            ),
            final(reader).infallible() == old(reader).infallible(),
            final(reader).greedy() == old(reader).greedy(),
            old(reader).infallible() || old(reader).greedy() ==> r is Ok,
            old(self).available().len() > 0 ==> (r matches Ok(s) && s@ == old(self).available()),
            old(self).available().len() == 0 && old(reader).greedy() ==> final(self).available()
                == old(reader).pending().take(vstd::math::min(old(self).spec_capacity() as int, old(reader).pending().len() as int)),
    {
        if self.pos >= self.filled {
            let result = reader.read(self.buf.as_mut_slice());
            self.pos = 0;
            match result {
                Ok(n) => {
                    self.filled = n;
                    if self.initialized < n {
                        self.initialized = n;
                    }
                    proof {
                        assert(final(self).available() =~= self.buf@.take(n as int));
                    }
                },
                Err(e) => {
                    self.filled = 0;
                    return Err(e);
                },
            }
        }
        Ok(self.buffer())
    }
}

} // verus!
