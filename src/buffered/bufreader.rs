use vstd::prelude::*;

use crate::error::{Error, Result};
use crate::impls::copy_prefix;
use crate::read::{read_step, BufRead, Read};

pub mod buffer;

use self::buffer::{Buffer, DEFAULT_BUF_SIZE};

verus! {

/// Adds a read window to any source.
///
/// Bytes come out in the order the source gave them: first those still in
/// the window, then the source's own.
pub struct BufReader<R> {
    inner: R,
    buf: Buffer,
}

/// One call of `BufReader::fill_buf` that took the reader from `before` to
/// `after` and, when it succeeded, returned `out`.
pub open spec fn fill_step<R>(before: BufReader<R>, after: BufReader<R>, out: Option<Seq<u8>>) -> bool {
    &&& before.window().available().len() > 0 ==> after == before
    &&& out matches Some(s) ==> s == after.window().available()
}

/// Calling `fill_buf` twice with no `consume` in between returns the same
/// bytes and reads nothing more from the source, once the first call
/// returned a non-empty window. (At the end of the stream the first call
/// returns an empty window and the second asks the source again.)
pub proof fn lemma_fill_buf_twice<R>(b0: BufReader<R>, b1: BufReader<R>, b2: BufReader<R>, s1: Seq<u8>, s2: Seq<u8>)
    requires
        fill_step(b0, b1, Some(s1)),
        fill_step(b1, b2, Some(s2)),
        s1.len() > 0,
    ensures
        s2 == s1,
        b2 == b1,
        b2.source() == b1.source(),
{
}

impl<R> BufReader<R> {
    /// The window is well formed and can hold at least one byte.
    pub closed spec fn window_ok(&self) -> bool {
        &&& self.buf.wf()
        &&& self.buf.spec_capacity() > 0
    }

    /// The wrapped source.
    pub closed spec fn source(&self) -> R {
        self.inner
    }

    /// The read window.
    pub closed spec fn window(&self) -> Buffer {
        self.buf
    }

    /// A reader with a window of the default capacity.
    pub fn new(inner: R) -> (r: BufReader<R>)
        ensures
            r.window_ok(),
            r.source() == inner,
            r.window().available().len() == 0,
            r.window().spec_capacity() == DEFAULT_BUF_SIZE,
    {
        BufReader { inner, buf: Buffer::new() }
    }

    /// A reader with a window of `capacity` bytes. A window needs room for
    /// at least one byte to tell a refill from the end of the stream.
    pub fn with_capacity(capacity: usize, inner: R) -> (r: BufReader<R>)
        requires
            capacity > 0,
        ensures
            r.window_ok(),
            r.source() == inner,
            r.window().available().len() == 0,
            r.window().spec_capacity() == capacity,
    {
        BufReader { inner, buf: Buffer::with_capacity(capacity) }
    }

    /// The wrapped source.
    pub fn get_ref(&self) -> (r: &R)
        ensures
            *r == self.source(),
    {
        &self.inner
    }

    /// The wrapped source, to change; the window stays as it is.
    pub fn get_mut(&mut self) -> (r: &mut R)
        ensures
            *r == old(self).source(),
            final(self).source() == *final(r),
            final(self).window_ok() == old(self).window_ok(),
            final(self).window() == old(self).window(),
    {
        &mut self.inner
    }

    /// The bytes the window holds, without refilling it.
    pub fn buffer(&self) -> (r: &[u8])
        requires
            self.window_ok(),
        ensures
            r@ == self.window().available(),
    {
        self.buf.buffer()
    }

    /// How many bytes the window can hold.
    pub fn capacity(&self) -> (r: usize)
        ensures
            r == self.window().spec_capacity(),
    {
        self.buf.capacity()
    }

    /// The wrapped source; bytes still in the window are lost.
    pub fn into_inner(self) -> (r: R)
        ensures
            r == self.source(),
    {
        self.inner
    }

    /// Drops the bytes in the window.
    pub fn discard_buffer(&mut self)
        requires
            old(self).window_ok(),
        ensures
            final(self).window_ok(),
            final(self).source() == old(self).source(),
            final(self).window().available().len() == 0,
            final(self).window().spec_capacity() == old(self).window().spec_capacity(),
    {
        self.buf.discard_buffer();
    }

    /// Whether the window holds no byte.
    pub fn is_empty(&self) -> (r: bool)
        requires
            self.window_ok(),
        ensures
            r == (self.window().available().len() == 0),
    {
        proof {
            self.buf.lemma_window();
        }
        self.buf.pos() >= self.buf.filled()
    }
}

impl<R: Read> Read for BufReader<R> {
    open spec fn pending(&self) -> Seq<u8> {
        self.window().available() + self.source().pending()
    }

    open spec fn wf(&self) -> bool {
        self.window_ok() && self.source().wf()
    }

    /// Fails only when the source does.
    open spec fn infallible(&self) -> bool {
        self.source().infallible()
    }

    /// A read may stop at the end of the window, so no reader claims this.
    open spec fn greedy(&self) -> bool {
        false
    }

    /// Serves from the window, refilling it when empty; a read at least as
    /// large as the window, while the window is empty, goes straight to the
    /// source.
    fn read(&mut self, buf: &mut [u8]) -> (r: Result<usize>)
        ensures
            old(self).window().available().len() > 0 ==> {
                &&& r == Ok::<usize, Error>(vstd::math::min(old(buf)@.len() as int, old(self).window().available().len() as int) as usize)
                &&& final(self).source() == old(self).source()
            },
            old(self).window().available().len() == 0 && old(buf)@.len() >= old(self).window().spec_capacity() ==>
                final(self).window().available().len() == 0,
            old(self).window().available().len() == 0 && old(buf)@.len() < old(self).window().spec_capacity() ==> (
                r matches Ok(n) ==> {
                    let m = n + final(self).window().available().len();
                    &&& m <= old(self).window().spec_capacity()
                    &&& n == vstd::math::min(old(buf)@.len() as int, m)
                    &&& final(self).window().available() == old(self).source().pending().take(m).skip(n as int)
                }),
            old(self).window().available().len() == 0 && old(self).source().greedy() ==> r == Ok::<usize, Error>(
                vstd::math::min(old(buf)@.len() as int, old(self).pending().len() as int) as usize,
            ),
            final(self).window().spec_capacity() == old(self).window().spec_capacity(),
    {
        proof {
            self.buf.lemma_window();
        }
        if self.is_empty() && buf.len() >= self.capacity() {
            self.discard_buffer();
            let r = self.inner.read(buf);
            proof {
                assert(self.pending() =~= self.source().pending());
                assert(old(self).pending() =~= old(self).source().pending());
            }
            return r;
        }
        let ghost before = self.pending();
        let nread = match self.buf.fill_buf(&mut self.inner) {
            Ok(rem) => {
                let mut rem = rem;
                match Read::read(&mut rem, buf) {
                    Ok(n) => n,
                    Err(e) => {
                        return Err(e);
                    },
                }
            },
            Err(e) => {
                proof {
                    assert(self.pending() =~= before);
                }
                return Err(e);
            },
        };
        let ghost mid = self.window().available();
        proof {
            self.buf.lemma_window();
        }
        self.buf.consume(nread);
        proof {
            assert(self.pending() =~= before.skip(nread as int));
            assert(mid.take(nread as int) =~= before.take(nread as int));
        }
        Ok(nread)
    }

    /// Serves from the window alone when it holds enough; otherwise hands
    /// out what it holds and reads the rest straight from the source.
    fn read_exact(&mut self, buf: &mut [u8]) -> (r: Result<()>)
        ensures
            old(buf)@.len() <= old(self).window().available().len() ==> {
                &&& r is Ok
                &&& final(self).source() == old(self).source()
            },
            final(self).window().spec_capacity() == old(self).window().spec_capacity(),
    {
        proof {
            self.buf.lemma_window();
        }
        let amt = buf.len();
        let ghost before = self.pending();
        let have = self.buf.filled() - self.buf.pos();
        let avail = self.buf.buffer();
        if amt <= have {
            let claimed = vstd::slice::slice_subrange(avail, 0, amt);
            copy_prefix(buf, claimed);
            self.buf.consume(amt);
            proof {
                assert(buf@ =~= buf@.take(amt as int));
                assert(buf@ =~= before.take(amt as int));
                assert(self.pending() =~= before.skip(amt as int));
            }
            return Ok(());
        }
        let (front, back) = buf.split_at_mut(have);
        copy_prefix(front, avail);
        proof {
            assert(front@ =~= front@.take(have as int));
        }
        self.buf.consume(have);
        let ghost mid = self.pending();
        proof {
            assert(mid =~= before.skip(have as int));
        }
        let r = self.inner.read_exact(back);
        proof {
            assert(self.pending() =~= self.source().pending());
            assert(buf@ == front@ + back@);
            if r is Ok {
                assert(buf@ =~= before.take(amt as int));
                assert(self.pending() =~= before.skip(amt as int));
            } else {
                let k = before.len() - self.pending().len();
                assert(self.pending() =~= before.skip(k));
            }
        }
        r
    }

    /// Drains the window into `buf`, then lets the source append the rest.
    fn read_to_end(&mut self, buf: &mut Vec<u8>) -> (r: Result<usize>)
        ensures
            final(buf)@.len() >= old(buf)@.len() + old(self).window().available().len(),
            final(self).window().spec_capacity() == old(self).window().spec_capacity(),
    {
        proof {
            self.buf.lemma_window();
        }
        let ghost before = self.pending();
        let start = buf.len();
        buf.extend_from_slice(self.buf.buffer());
        self.discard_buffer();
        let r = self.inner.read_to_end(buf);
        proof {
            assert(self.pending() =~= self.source().pending());
            let k = buf@.len() - old(buf)@.len();
            assert(buf@ =~= old(buf)@ + before.take(k));
            assert(self.pending() =~= before.skip(k));
        }
        match r {
            Ok(_) => Ok(buf.len() - start),
            Err(e) => Err(e),
        }
    }
}

impl<R: Read> BufRead for BufReader<R> {
    open spec fn buffered(&self) -> Seq<u8> {
        self.window().available()
    }

    /// Refills the window from the source only when it is empty; a window
    /// that holds bytes comes back as it is, and the source is not touched.
    fn fill_buf(&mut self) -> (r: Result<&[u8]>)
        ensures
            fill_step(*old(self), *final(self), match r {
                Ok(s) => Some(s@),
                Err(_) => None,
            }),
            final(self).window().spec_capacity() == old(self).window().spec_capacity(),
            old(self).window().available().len() == 0 ==> read_step(
                old(self).source().pending(),
                final(self).source().pending(),
                old(self).window().spec_capacity() as int,
                final(self).window().available(),
                match r {
                    Ok(s) => Ok(s@.len() as usize),
                    Err(e) => Err(e),
                },
            ),
            r is Err ==> final(self).window().available().len() == 0,
            old(self).window().available().len() == 0 && old(self).source().greedy() ==> final(self).window().available()
                == old(self).source().pending().take(
                vstd::math::min(old(self).window().spec_capacity() as int, old(self).source().pending().len() as int),
            ),
    {
        proof {
            self.buf.lemma_window();
        }
        if self.is_empty() {
            let ghost p = self.source().pending();
            match self.buf.fill_buf(&mut self.inner) {
                Ok(_) => {
                    proof {
                        self.buf.lemma_window();
                        let n = self.window().available().len() as int;
                        assert(old(self).pending() =~= p);
                        assert(self.pending() =~= p.take(n) + p.skip(n));
                        assert(p.take(n) + p.skip(n) =~= p);
                    }
                },
                Err(e) => {
                    proof {
                        assert(self.pending() =~= old(self).pending());
                    }
                    return Err(e);
                },
            }
        }
        proof {
            self.buf.lemma_window();
            let w = self.window().available();
            assert(self.pending().take(w.len() as int) =~= w);
            assert(self.buffered() == w);
        }
        Ok(self.buf.buffer())
    }

    fn consume(&mut self, amt: usize)
        ensures
            final(self).source() == old(self).source(),
            final(self).window().spec_capacity() == old(self).window().spec_capacity(),
            final(self).window().available() == old(self).window().available().skip(
                vstd::math::min(amt as int, old(self).window().available().len() as int),
            ),
    {
        self.buf.consume(amt);
        proof {
            let k = vstd::math::min(amt as int, old(self).window().available().len() as int);
            assert(self.pending() =~= old(self).pending().skip(k));
        }
    }
}

} // verus!
