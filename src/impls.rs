use vstd::prelude::*;

use crate::buf::Buf;
use crate::error::{Error, Result};
use crate::read::Read;

verus! {

/// Copies `src` into the front of `dst`.
pub(crate) fn copy_prefix(dst: &mut [u8], src: &[u8])
    requires
        src@.len() <= old(dst)@.len(),
    ensures
        final(dst)@.len() == old(dst)@.len(),
        final(dst)@.take(src@.len() as int) == src@,
        final(dst)@.skip(src@.len() as int) == old(dst)@.skip(src@.len() as int),
{
    let n = src.len();
    let mut i: usize = 0;
    while i < n
        invariant
            n == src@.len(),
            i <= n,
            n <= dst@.len(),
            dst@.len() == old(dst)@.len(),
            forall|j: int| 0 <= j < i ==> dst@[j] == src@[j],
            forall|j: int| n <= j < dst@.len() ==> dst@[j] == old(dst)@[j],
        decreases n - i,
    {
        dst[i] = src[i];
        i += 1;
    }
    proof {
        assert(dst@.take(n as int) =~= src@);
        assert(dst@.skip(n as int) =~= old(dst)@.skip(n as int));
    }
}

/// A byte slice reads from its front and shrinks as it is read.
impl Read for &[u8] {
    open spec fn pending(&self) -> Seq<u8> {
        (**self)@
    }

    open spec fn wf(&self) -> bool {
        true
    }

    open spec fn infallible(&self) -> bool {
        true
    }

    open spec fn greedy(&self) -> bool {
        true
    }

    fn read(&mut self, buf: &mut [u8]) -> (r: Result<usize>)
        ensures
            r == Ok::<usize, Error>(vstd::math::min(old(buf)@.len() as int, old(self)@.len() as int) as usize),
    {
        let amt = if buf.len() < self.len() { buf.len() } else { self.len() };
        let (a, b) = self.split_at(amt);
        copy_prefix(buf, a);
        *self = b;
        proof {
            assert(self.wf());
            assert(self.infallible() && self.greedy());
            assert(self.pending() == b@);
        }
        Ok(amt)
    }

    fn read_exact(&mut self, buf: &mut [u8]) -> (r: Result<()>)
        ensures
            r is Ok <==> old(buf)@.len() <= old(self)@.len(),
            r is Err ==> r == Err::<(), Error>(Error::UnexpectedEof) && *final(self) == *old(self) && final(buf)@ == old(buf)@,
    {
        if buf.len() > self.len() {
            proof {
                assert(old(self)@.skip(0) =~= old(self)@);
            }
            return Err(Error::UnexpectedEof);
        }
        let amt = buf.len();
        let (a, b) = self.split_at(amt);
        copy_prefix(buf, a);
        proof {
            assert(buf@ =~= buf@.take(amt as int));
        }
        *self = b;
        Ok(())
    }

    fn read_to_end(&mut self, buf: &mut Vec<u8>) -> (r: Result<usize>)
        ensures
            r == Ok::<usize, Error>(old(self)@.len() as usize),
    {
        buf.extend_from_slice(self);
        let len = self.len();
        *self = vstd::slice::slice_subrange(self, len, len);
        proof {
            assert(buf@ =~= old(buf)@ + old(self)@.take(len as int));
            assert(self@ =~= old(self)@.skip(len as int));
        }
        Ok(len)
    }
}

/// A byte slice knows how much of it is left.
impl Buf for &[u8] {
    fn remaining(&self) -> (r: usize) {
        self.len()
    }
}

} // verus!
