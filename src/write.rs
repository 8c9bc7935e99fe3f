use vstd::prelude::*;

use crate::error::{Error, Result};

verus! {

/// One call of `write` offering `data` to a sink that had taken `before` and
/// has taken `after`: a successful write takes a prefix of `data` and
/// returns its length; a failed one takes nothing.
pub open spec fn write_step(before: Seq<u8>, after: Seq<u8>, data: Seq<u8>, r: Result<usize>) -> bool {
    match r {
        Ok(n) => n <= data.len() && after == before + data.take(n as int),
        Err(_) => after == before,
    }
}

/// The sink went from `before` to `after` by taking a prefix of `data`
/// shorter than all of it.
pub open spec fn took_prefix(before: Seq<u8>, after: Seq<u8>, data: Seq<u8>) -> bool {
    &&& before.len() <= after.len()
    &&& after.len() - before.len() < data.len()
    &&& after == before + data.take(after.len() - before.len())
}

/// What `write_all` and a flush make of one `write` outcome: a write that
/// took nothing of a non-empty buffer becomes `WriteZero`; anything else
/// stays as it is.
pub fn nonzero_write(r: Result<usize>) -> (out: Result<usize>)
    ensures
        r == Ok::<usize, Error>(0) ==> out == Err::<usize, Error>(Error::WriteZero),
        r matches Ok(n) ==> (n > 0 ==> out == r),
        r is Err ==> out == r,
{
    match r {
        Ok(0) => Err(Error::WriteZero),
        other => other,
    }
}

/// A sink of bytes.
pub trait Write {
    /// Every byte this sink has taken, in order.
    ///
    /// A sink describes what it has taken here; the default describes one
    /// that takes nothing.
    closed spec fn sent(&self) -> Seq<u8> {
        Seq::empty()
    }

    /// Whether this sink is in a state its operations accept; each of them
    /// keeps it so.
    closed spec fn wf(&self) -> bool {
        true
    }

    /// Whether every write takes all it is offered and nothing fails. The
    /// default claims nothing.
    closed spec fn takes_all(&self) -> bool {
        false
    }

    /// Offers `buf` and returns how many of its bytes, from the front, the
    /// sink took.
    fn write(&mut self, buf: &[u8]) -> (r: Result<usize>)
        requires
            old(self).wf(),
        ensures
            final(self).wf(),
            write_step(old(self).sent(), final(self).sent(), buf@, r),
            final(self).takes_all() == old(self).takes_all(),
            old(self).takes_all() ==> r == Ok::<usize, Error>(buf@.len() as usize),
    ;

    /// Pushes whatever this sink holds on to where it goes; what it has taken
    /// stays the same.
    fn flush(&mut self) -> (r: Result<()>)
        requires
            old(self).wf(),
        ensures
            final(self).wf(),
            final(self).sent() == old(self).sent(),
            final(self).takes_all() == old(self).takes_all(),
            old(self).takes_all() ==> r is Ok,
    ;

    /// Writes all of `buf`, calling `write` until every byte is taken; a
    /// write that takes nothing fails with `WriteZero`.
    fn write_all(&mut self, buf: &[u8]) -> (r: Result<()>)
        requires
            old(self).wf(),
        ensures
            final(self).wf(),
            r is Ok ==> final(self).sent() == old(self).sent() + buf@,
            r is Err ==> took_prefix(old(self).sent(), final(self).sent(), buf@),
            final(self).takes_all() == old(self).takes_all(),
            old(self).takes_all() || buf@.len() == 0 ==> r is Ok,
    {
        let mut rest = buf;
        let mut done: usize = 0;
        proof {
            assert(old(self).sent() + buf@.take(0) =~= old(self).sent());
        }
        while rest.len() > 0
            invariant
                self.wf(),
                self.takes_all() == old(self).takes_all(),
                done <= buf@.len(),
                done + rest@.len() == buf.len(),
                rest@ == buf@.skip(done as int),
                self.sent() == old(self).sent() + buf@.take(done as int),
            decreases rest@.len(),
        {
            let ghost sent_before = self.sent();
            match nonzero_write(self.write(rest)) {
                Ok(n) => {
                    rest = vstd::slice::slice_subrange(rest, n, rest.len());
                    proof {
                        assert(buf@.take(done + n) =~= buf@.take(done as int) + buf@.skip(done as int).take(n as int));
                        assert(rest@ =~= buf@.skip(done + n));
                    }
                    done = done + n;
                },
                Err(e) => {
                    return Err(e);
                },
            }
        }
        proof {
            assert(buf@.take(done as int) =~= buf@);
        }
        Ok(())
    }
}

/// A vector takes every byte offered, at its end.
impl Write for Vec<u8> {
    open spec fn sent(&self) -> Seq<u8> {
        self@
    }

    open spec fn wf(&self) -> bool {
        true
    }

    open spec fn takes_all(&self) -> bool {
        true
    }

    fn write(&mut self, buf: &[u8]) -> (r: Result<usize>)
        ensures
            r == Ok::<usize, Error>(buf@.len() as usize),
    {
        self.extend_from_slice(buf);
        proof {
            assert(self@ =~= old(self)@ + buf@.take(buf@.len() as int));
            assert(self.sent() == self@);
            assert(self.wf() && self.takes_all());
        }
        Ok(buf.len())
    }

    fn flush(&mut self) -> (r: Result<()>)
        ensures
            r is Ok,
    {
        proof {
            assert(self.wf() && self.takes_all());
        }
        Ok(())
    }
}

} // verus!
