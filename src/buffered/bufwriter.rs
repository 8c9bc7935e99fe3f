use vstd::prelude::*;

use crate::error::{Error, Result};
use crate::write::{nonzero_write, Write};

pub mod buffer_array;
pub mod buffer_vec;

use self::buffer_vec::Buffer;

verus! {

/// Adds a write stage to any sink.
///
/// Small writes gather in the stage and reach the sink when it is flushed
/// or would overflow. Bytes still in the stage when the writer is dropped
/// are lost: `flush` or `into_inner` first.
pub struct BufWriter<W> {
    inner: W,
    buf: Buffer,
}

impl<W> BufWriter<W> {
    /// The wrapped sink.
    pub closed spec fn sink(&self) -> W {
        self.inner
    }

    /// The write stage.
    pub closed spec fn stage(&self) -> Buffer {
        self.buf
    }

    /// A writer with a stage of the default capacity.
    pub fn new(inner: W) -> (r: BufWriter<W>)
        ensures
            r.stage().wf(),
            r.sink() == inner,
            r.stage().contents().len() == 0,
            r.stage().spec_capacity() == crate::buffered::bufreader::buffer::DEFAULT_BUF_SIZE,
    {
        BufWriter { inner, buf: Buffer::new() }
    }

    /// A writer with a stage of `capacity` bytes.
    pub fn with_capacity(capacity: usize, inner: W) -> (r: BufWriter<W>)
        ensures
            r.stage().wf(),
            r.sink() == inner,
            r.stage().contents().len() == 0,
            r.stage().spec_capacity() == capacity,
    {
        BufWriter { inner, buf: Buffer::with_capacity(capacity) }
    }

    /// The wrapped sink.
    pub fn get_ref(&self) -> (r: &W)
        ensures
            *r == self.sink(),
    {
        &self.inner
    }

    /// The wrapped sink, to change; bytes still in the stage reach it only
    /// on the next flush.
    pub fn get_mut(&mut self) -> (r: &mut W)
        ensures
            *r == old(self).sink(),
            final(self).sink() == *final(r),
            final(self).stage() == old(self).stage(),
    {
        &mut self.inner
    }

    /// The bytes waiting in the stage.
    pub fn buffer(&self) -> (r: &[u8])
        ensures
            r@ == self.stage().contents(),
    {
        self.buf.as_slice()
    }

    /// How many bytes the stage can hold.
    pub fn capacity(&self) -> (r: usize)
        ensures
            r == self.stage().spec_capacity(),
    {
        self.buf.capacity()
    }
}

impl<W: Write> BufWriter<W> {
    /// Writes the stage to the sink, retrying after partial writes. What the
    /// sink took leaves the stage even when a later write fails, so no byte
    /// is sent twice.
    pub fn flush_buf(&mut self) -> (r: Result<()>)
        requires
            old(self).wf(),
        ensures
            final(self).wf(),
            final(self).sent() == old(self).sent(),
            final(self).stage().spec_capacity() == old(self).stage().spec_capacity(),
            r is Ok ==> final(self).stage().contents().len() == 0,
            final(self).takes_all() == old(self).takes_all(),
            old(self).takes_all() || old(self).stage().contents().len() == 0 ==> r is Ok,
            old(self).stage().contents().len() == 0 ==> *final(self) == *old(self),
    {
        let len = self.buf.len();
        let ghost staged = self.stage().contents();
        assert(old(self).takes_all() == old(self).sink().takes_all());
        let mut written: usize = 0;
        let mut ret: Result<()> = Ok(());
        proof {
            assert(old(self).sink().sent() + staged.take(0) =~= old(self).sink().sent());
        }
        while written < len
            invariant_except_break
                ret is Ok,
                written == 0 ==> self.inner == old(self).inner,
            invariant
                self.inner.wf(),
                self.inner.takes_all() == old(self).sink().takes_all(),
                self.buf == old(self).buf,
                staged == self.buf.contents(),
                len == staged.len(),
                written <= len,
                self.inner.sent() == old(self).sink().sent() + staged.take(written as int),
            ensures
                ret is Ok ==> written == len,
                old(self).sink().takes_all() ==> ret is Ok,
                len == 0 ==> self.inner == old(self).inner,
                len == 0 ==> ret is Ok,
            decreases len - written,
        {
            let rest = vstd::slice::slice_subrange(self.buf.as_slice(), written, len);
            match nonzero_write(self.inner.write(rest)) {
                Ok(n) => {
                    proof {
                        assert(staged.take(written + n) =~= staged.take(written as int) + rest@.take(n as int));
                    }
                    written = written + n;
                },
                Err(e) => {
                    ret = Err(e);
                    break;
                },
            }
        }
        if written > 0 {
            self.buf.consume(written);
        }
        proof {
            assert(staged =~= staged.take(written as int) + staged.skip(written as int));
            assert(self.sent() =~= old(self).sent());
        }
        ret
    }

    /// Flushes the stage and hands back the sink; on failure hands back the
    /// error and the writer, with nothing lost.
    pub fn into_inner(self) -> (r: core::result::Result<W, (Error, BufWriter<W>)>)
        requires
            self.wf(),
        ensures
            r matches Ok(w) ==> w.sent() == self.sent() && w.wf(),
            r matches Err((_, w)) ==> w.sent() == self.sent() && w.wf(),
            self.stage().contents().len() == 0 ==> r == Ok::<W, (Error, BufWriter<W>)>(self.sink()),
            self.takes_all() ==> r is Ok,
    {
        let mut me = self;
        match me.flush_buf() {
            Ok(()) => {
                proof {
                    assert(me.sent() =~= me.sink().sent());
                }
                Ok(me.inner)
            },
            Err(e) => Err((e, me)),
        }
    }
}

impl<W: Write> Write for BufWriter<W> {
    /// What the sink has taken, then what waits in the stage.
    open spec fn sent(&self) -> Seq<u8> {
        self.sink().sent() + self.stage().contents()
    }

    open spec fn wf(&self) -> bool {
        self.stage().wf() && self.sink().wf()
    }

    /// Takes all when its sink does.
    open spec fn takes_all(&self) -> bool {
        self.sink().takes_all()
    }

    /// Buffers `buf` when it fits in the stage, flushing the stage first
    /// when only that makes room; a `buf` larger than the whole stage goes
    /// straight to the sink.
    fn write(&mut self, buf: &[u8]) -> (r: Result<usize>)
        ensures
            buf@.len() <= old(self).stage().spec_capacity() - old(self).stage().contents().len() ==> {
                &&& r == Ok::<usize, Error>(buf@.len() as usize)
                &&& final(self).sink() == old(self).sink()
            },
            final(self).stage().spec_capacity() == old(self).stage().spec_capacity(),
    {
        if buf.len() > self.buf.spare_capacity() {
            match self.flush_buf() {
                Ok(()) => {},
                Err(e) => {
                    return Err(e);
                },
            }
        }
        if buf.len() <= self.buf.spare_capacity() {
            let ghost before = self.sent();
            let n = self.buf.append(buf);
            proof {
                assert(buf@.take(n as int) =~= buf@);
                assert(self.sent() =~= before + buf@.take(n as int));
            }
            Ok(n)
        } else {
            let ghost before = self.sent();
            proof {
                assert(before =~= self.sink().sent());
            }
            let r = self.inner.write(buf);
            proof {
                assert(self.stage().contents() =~= Seq::<u8>::empty());
                assert(self.sent() =~= self.sink().sent());
            }
            r
        }
    }

    /// Writes the stage to the sink, then flushes the sink.
    fn flush(&mut self) -> (r: Result<()>)
        ensures
            r is Ok ==> final(self).stage().contents().len() == 0,
            final(self).stage().spec_capacity() == old(self).stage().spec_capacity(),
    {
        match self.flush_buf() {
            Ok(()) => {
                let ghost before = self.sent();
                let r = self.inner.flush();
                proof {
                    assert(self.sent() =~= before);
                }
                r
            },
            Err(e) => Err(e),
        }
    }
}

} // verus!
