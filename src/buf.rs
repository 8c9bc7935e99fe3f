use vstd::prelude::*;

use crate::error::{Error, Result};
use crate::read::Read;
use crate::write::Write;

verus! {

/// Size of the stack region that chunked transfers move bytes through.
pub const IO_BUF_SIZE: usize = 4096;

/// The `i`-th chunk of `p` that a chunked pull hands over: `IO_BUF_SIZE`
/// bytes from offset `i * IO_BUF_SIZE`, or fewer at the end.
pub open spec fn chunk_at(p: Seq<u8>, i: int) -> Seq<u8> {
    p.subrange(i * IO_BUF_SIZE, vstd::math::min((i + 1) * IO_BUF_SIZE, p.len() as int))
}

/// `f` takes every chunk it is offered, whole, and never fails.
pub open spec fn takes_every_chunk<F: FnMut(&[u8]) -> Result<usize>>(f: F) -> bool {
    forall|s: &[u8], t: Result<usize>| #[trigger] call_ensures(f, (s,), t) ==> t == Ok::<usize, Error>(s@.len() as usize)
}

/// A source that knows how many bytes it has left.
pub trait Buf: Read {
    /// How many bytes are left to read.
    fn remaining(&self) -> (r: usize)
        requires
            self.wf(),
        ensures
            r == self.pending().len(),
    ;

    /// Hands the bytes that are left to `f`, in order, `IO_BUF_SIZE` at a
    /// time (the last chunk may be shorter), through one stack region. `f`
    /// returns how many of the offered bytes it took; taking fewer ends the
    /// transfer. Returns the total taken.
    ///
    /// Every chunk offered is read from this source first, so a chunk that
    /// `f` takes only in part is gone from the source all the same. `f` need
    /// accept nothing but the chunks of the source, in their places.
    fn consume<F: FnMut(&[u8]) -> Result<usize>>(&mut self, f: F) -> (r: Result<usize>)
        requires
            old(self).wf(),
            forall|i: int, s: &[u8]|
                #![trigger chunk_at(old(self).pending(), i), call_requires(f, (s,))]
                0 <= i && i * IO_BUF_SIZE < old(self).pending().len() && s@ == chunk_at(old(self).pending(), i)
                    ==> call_requires(f, (s,)),
            forall|s: &[u8], t: Result<usize>| #[trigger] call_ensures(f, (s,), t) ==> (t matches Ok(n) ==> n <= s@.len()),
        ensures
            final(self).wf(),
            final(self).infallible() == old(self).infallible(),
            final(self).greedy() == old(self).greedy(),
            final(self).pending().len() <= old(self).pending().len(),
            final(self).pending() == old(self).pending().skip(old(self).pending().len() - final(self).pending().len()),
            r matches Ok(count) ==> count <= old(self).pending().len() - final(self).pending().len(),
            old(self).pending().len() == 0 ==> r == Ok::<usize, Error>(0) && final(self).pending() == old(self).pending(),
            takes_every_chunk(f) ==> (old(self).infallible() ==> r == Ok::<usize, Error>(old(self).pending().len() as usize)),
            takes_every_chunk(f) ==> (r matches Ok(count) ==> count == old(self).pending().len() && final(self).pending().len() == 0),
    {
        let ghost all = takes_every_chunk(f);
        let mut step = f;
        let size = self.remaining();
        let mut scratch = [0u8; IO_BUF_SIZE];
        let mut count: usize = 0;
        let ghost p = old(self).pending();
        let ghost mut idx: int = 0;
        proof {
            assert(p.skip(0) =~= p);
        }
        loop
            invariant
                self.wf(),
                self.infallible() == old(self).infallible(),
                self.greedy() == old(self).greedy(),
                p == old(self).pending(),
                size == p.len(),
                count <= size,
                0 <= idx,
                count == size || count == idx * IO_BUF_SIZE,
                self.pending() == p.skip(count as int),
                all == takes_every_chunk(step),
                all == takes_every_chunk(f),
                forall|i: int, s: &[u8]|
                    #![trigger chunk_at(p, i), call_requires(step, (s,))]
                    0 <= i && i * IO_BUF_SIZE < p.len() && s@ == chunk_at(p, i) ==> call_requires(step, (s,)),
                forall|s: &[u8], t: Result<usize>| #[trigger] call_ensures(step, (s,), t) ==> (t matches Ok(n) ==> n <= s@.len()),
            decreases size - count,
        {
            let len = if IO_BUF_SIZE < size - count { IO_BUF_SIZE } else { size - count };
            if len == 0 {
                proof {
                    assert(self.pending() =~= Seq::<u8>::empty());
                    if count == 0 {
                        assert(self.pending() =~= p);
                    }
                }
                return Ok(count);
            }
            let whole: &mut [u8] = &mut scratch;
            let (chunk, _) = whole.split_at_mut(len);
            match self.read_exact(chunk) {
                Ok(()) => {},
                Err(e) => {
                    proof {
                        let k = p.len() - self.pending().len();
                        assert(self.pending() =~= p.skip(k));
                    }
                    return Err(e);
                },
            }
            proof {
                assert(self.pending() =~= p.skip(count + len));
                assert(chunk@ =~= chunk_at(p, idx));
            }
            let res = step(chunk);
            proof {
                if all {
                    assert(res == Ok::<usize, Error>(chunk@.len() as usize));
                }
            }
            let read = match res {
                Ok(n) => n,
                Err(e) => {
                    return Err(e);
                },
            };
            if read < len {
                return Ok(count + read);
            }
            count = count + len;
            proof {
                idx = idx + 1;
            }
        }
    }
}

/// `f` never fails.
pub open spec fn never_fails<F: FnMut(&mut [u8]) -> Result<usize>>(f: F) -> bool {
    forall|s: &mut [u8], t: Result<usize>| #[trigger] call_ensures(f, (s,), t) ==> t is Ok
}

/// A sink that knows how many more bytes it can take.
pub trait BufMut: Write {
    /// How many more bytes the sink can take. The default describes a sink
    /// with no room.
    closed spec fn room(&self) -> nat {
        0
    }

    /// How many more bytes the sink can take.
    fn remaining_mut(&self) -> (r: usize)
        requires
            self.wf(),
        ensures
            r == self.room(),
    ;

    /// Lets `f` produce bytes into one stack region, at most `IO_BUF_SIZE` at
    /// a time and never more than `remaining_mut` in all, and writes each
    /// batch to this sink. `f` returns how many bytes it produced; fewer
    /// than offered ends the transfer. Returns the total produced.
    fn fill<F: FnMut(&mut [u8]) -> Result<usize>>(&mut self, f: F) -> (r: Result<usize>)
        requires
            old(self).wf(),
            forall|s: &mut [u8]| 0 < s@.len() <= IO_BUF_SIZE ==> call_requires(f, (s,)),
            forall|s: &mut [u8], t: Result<usize>| #[trigger] call_ensures(f, (s,), t) ==> (t matches Ok(n) ==> n <= s@.len()),
        ensures
            final(self).wf(),
            final(self).takes_all() == old(self).takes_all(),
            old(self).sent().len() <= final(self).sent().len(),
            final(self).sent().take(old(self).sent().len() as int) == old(self).sent(),
            r matches Ok(count) ==> final(self).sent().len() == old(self).sent().len() + count && count <= old(self).room(),
            old(self).room() == 0 ==> r == Ok::<usize, Error>(0) && final(self).sent() == old(self).sent(),
            old(self).takes_all() && never_fails(f) ==> r is Ok,
    {
        let ghost sure = never_fails(f);
        let mut step = f;
        let size = self.remaining_mut();
        let mut scratch = [0u8; IO_BUF_SIZE];
        let mut count: usize = 0;
        proof {
            assert(old(self).sent().take(old(self).sent().len() as int) =~= old(self).sent());
        }
        loop
            invariant
                self.wf(),
                self.takes_all() == old(self).takes_all(),
                size == old(self).room(),
                count <= size,
                scratch@.len() == IO_BUF_SIZE,
                old(self).sent().len() + count == self.sent().len(),
                self.sent().take(old(self).sent().len() as int) == old(self).sent(),
                sure == never_fails(step),
                sure == never_fails(f),
                forall|s: &mut [u8]| 0 < s@.len() <= IO_BUF_SIZE ==> call_requires(step, (s,)),
                forall|s: &mut [u8], t: Result<usize>| #[trigger] call_ensures(step, (s,), t) ==> (t matches Ok(n) ==> n <= s@.len()),
            decreases size - count,
        {
            let len = if IO_BUF_SIZE < size - count { IO_BUF_SIZE } else { size - count };
            if len == 0 {
                proof {
                    if count == 0 {
                        assert(self.sent() =~= old(self).sent());
                    }
                }
                return Ok(count);
            }
            let whole: &mut [u8] = &mut scratch;
            let (chunk, _) = whole.split_at_mut(len);
            let res = step(chunk);
            proof {
                if sure {
                    assert(res is Ok);
                }
            }
            let written = match res {
                Ok(n) => n,
                Err(e) => {
                    return Err(e);
                },
            };
            let produced = vstd::slice::slice_subrange(scratch.as_slice(), 0, written);
            match self.write_all(produced) {
                Ok(()) => {},
                Err(e) => {
                    proof {
                        assert(self.sent().take(old(self).sent().len() as int) =~= old(self).sent());
                    }
                    return Err(e);
                },
            }
            proof {
                assert(self.sent().take(old(self).sent().len() as int) =~= old(self).sent());
            }
            count = count + written;
            if written < len {
                return Ok(count);
            }
        }
    }
}

} // verus!
