use vstd::prelude::*;
use vstd::utf8::{decode_utf8, valid_utf8};

use crate::error::{Error, Result};

pub mod bufread;

pub use self::bufread::{BufRead, Lines, Split};

verus! {

/// Size of the stack region that `read_to_end` pulls bytes through.
const READ_CHUNK: usize = 512;

/// One call of `read` on a source whose pending bytes were `before` and are
/// `after`, into a buffer of `room` bytes that afterwards holds `out`.
///
/// A successful read hands out a prefix of what was pending, no longer than
/// the buffer, and returns zero for a non-empty buffer only at the end of the
/// stream. A failed read takes nothing.
pub open spec fn read_step(before: Seq<u8>, after: Seq<u8>, room: int, out: Seq<u8>, r: Result<usize>) -> bool {
    match r {
        Ok(n) => {
            &&& n <= room
            &&& n <= before.len()
            &&& out.take(n as int) == before.take(n as int)
            &&& after == before.skip(n as int)
            &&& (n == 0 && room > 0 ==> before.len() == 0)
        },
        Err(_) => after == before,
    }
}

/// The pending bytes went from `before` to `after` by taking a prefix of
/// `before` and appending it to an output that went from `out_before` to
/// `out_after`.
pub open spec fn drained_into(out_before: Seq<u8>, out_after: Seq<u8>, before: Seq<u8>, after: Seq<u8>) -> bool {
    let k = out_after.len() - out_before.len();
    &&& out_before.len() <= out_after.len()
    &&& k <= before.len()
    &&& out_after == out_before + before.take(k)
    &&& after == before.skip(k)
}

/// Some prefix of `before`, shorter than `want`, was taken and lost.
pub open spec fn took_part(before: Seq<u8>, after: Seq<u8>, want: int) -> bool {
    &&& after.len() <= before.len()
    &&& before.len() - after.len() < want
    &&& after == before.skip(before.len() - after.len())
}

/// One call of `read_exact` for `want` bytes that left `out` in the buffer.
pub open spec fn exact_step(before: Seq<u8>, after: Seq<u8>, want: int, out: Seq<u8>, r: Result<()>) -> bool {
    &&& r is Ok ==> {
        &&& want <= before.len()
        &&& out == before.take(want)
        &&& after == before.skip(want)
    }
    &&& r is Err ==> took_part(before, after, want)
    &&& before.len() < want ==> r is Err
}

/// A source of bytes.
pub trait Read {
    /// The bytes that this source has yet to deliver, in order.
    ///
    /// A source describes what it holds here; the default describes one that
    /// never delivers a byte.
    closed spec fn pending(&self) -> Seq<u8> {
        Seq::empty()
    }

    /// Whether this source is in a state its operations accept; each of them
    /// keeps it so.
    closed spec fn wf(&self) -> bool {
        true
    }

    /// Whether no operation of this source ever fails. The default claims
    /// nothing.
    closed spec fn infallible(&self) -> bool {
        false
    }

    /// Whether every read fills as much of the buffer as is pending, and
    /// never fails. The default claims nothing.
    closed spec fn greedy(&self) -> bool {
        false
    }

    /// Pulls some bytes into `buf` and returns how many arrived; zero for a
    /// non-empty `buf` means the end of the stream.
    fn read(&mut self, buf: &mut [u8]) -> (r: Result<usize>)
        requires
            old(self).wf(),
        ensures
            final(self).wf(),
            final(buf)@.len() == old(buf)@.len(),
            read_step(old(self).pending(), final(self).pending(), old(buf)@.len() as int, final(buf)@, r),
            final(self).infallible() == old(self).infallible(),
            final(self).greedy() == old(self).greedy(),
            old(self).infallible() ==> r is Ok,
            old(self).greedy() ==> r == Ok::<usize, Error>(
                vstd::math::min(old(buf)@.len() as int, old(self).pending().len() as int) as usize,
            ),
    ;

    /// Fills all of `buf`, or fails; `UnexpectedEof` when the stream ends first.
    fn read_exact(&mut self, buf: &mut [u8]) -> (r: Result<()>)
        requires
            old(self).wf(),
        ensures
            final(self).wf(),
            final(buf)@.len() == old(buf)@.len(),
            exact_step(old(self).pending(), final(self).pending(), old(buf)@.len() as int, final(buf)@, r),
            final(self).infallible() == old(self).infallible(),
            final(self).greedy() == old(self).greedy(),
            old(self).infallible() ==> (r is Ok <==> old(buf)@.len() <= old(self).pending().len()),
            old(self).infallible() && old(self).pending().len() < old(buf)@.len() ==> r == Err::<(), Error>(Error::UnexpectedEof),
    {
        let want = buf.len();
        let mut done: usize = 0;
        while done < want
            invariant
                self.wf(),
                self.infallible() == old(self).infallible(),
                self.greedy() == old(self).greedy(),
                want == old(buf)@.len(),
                buf@.len() == want,
                done <= want,
                done <= old(self).pending().len(),
                buf@.take(done as int) == old(self).pending().take(done as int),
                self.pending() == old(self).pending().skip(done as int),
            decreases want - done,
        {
            let ghost before = self.pending();
            let ghost head = buf@.take(done as int);
            let (front, tail) = buf.split_at_mut(done);
            let r = self.read(tail);
            proof {
                assert(front@ == head);
                assert(before.skip(0) =~= before);
            }
            match r {
                Ok(n) => {
                    if n == 0 {
                        return Err(Error::UnexpectedEof);
                    }
                    proof {
                        assert(buf@.take(done + n) =~= old(self).pending().take(done + n)) by {
                            assert forall|i: int| 0 <= i < done + n implies buf@[i] == old(self).pending()[i] by {
                                if i >= done {
                                    assert(buf@[i] == tail@.take(n as int)[i - done]);
                                    assert(before[i - done] == old(self).pending()[i]);
                                } else {
                                    assert(buf@.take(done as int)[i] == buf@[i]);
                                }
                            }
                        }
                        assert(self.pending() =~= old(self).pending().skip(done + n));
                    }
                    done += n;
                },
                Err(e) => {
                    return Err(e);
                },
            }
        }
        proof {
            assert(buf@ =~= buf@.take(want as int));
        }
        Ok(())
    }

    /// Reads until the end of the stream, appending every byte to `buf`, and
    /// returns how many were appended.
    fn read_to_end(&mut self, buf: &mut Vec<u8>) -> (r: Result<usize>)
        requires
            old(self).wf(),
        ensures
            final(self).wf(),
            drained_into(old(buf)@, final(buf)@, old(self).pending(), final(self).pending()),
            r matches Ok(n) ==> n == final(buf)@.len() - old(buf)@.len() && final(self).pending().len() == 0,
            final(self).infallible() == old(self).infallible(),
            final(self).greedy() == old(self).greedy(),
            old(self).infallible() ==> r is Ok,
    {
        let start = buf.len();
        let mut chunk = [0u8; READ_CHUNK];
        proof {
            assert(old(buf)@ + old(self).pending().take(0) =~= old(buf)@);
            assert(old(self).pending().skip(0) =~= old(self).pending());
        }
        loop
            invariant
                self.wf(),
                self.infallible() == old(self).infallible(),
                self.greedy() == old(self).greedy(),
                start == old(buf)@.len(),
                chunk@.len() == READ_CHUNK,
                drained_into(old(buf)@, buf@, old(self).pending(), self.pending()),
            decreases self.pending().len(),
        {
            let ghost before = self.pending();
            let ghost out_before = buf@;
            match self.read(&mut chunk) {
                Ok(n) => {
                    if n == 0 {
                        proof {
                            assert(before.skip(0) =~= before);
                        }
                        return Ok(buf.len() - start);
                    }
                    let got = vstd::slice::slice_subrange(chunk.as_slice(), 0, n);
                    buf.extend_from_slice(got);
                    proof {
                        assert(got@ =~= before.take(n as int));
                        assert(buf@ =~= out_before + got@);
                        let k = out_before.len() - old(buf)@.len();
                        assert(buf@ =~= out_before + before.take(n as int));
                        assert(old(self).pending().take(k + n) =~= old(self).pending().take(k) + before.take(n as int));
                        assert(self.pending() =~= old(self).pending().skip(k + n));
                        assert(buf@ =~= old(buf)@ + old(self).pending().take(k + n));
                        assert(buf@.len() - old(buf)@.len() == k + n);
                    }
                },
                Err(e) => {
                    return Err(e);
                },
            }
        }
    }

    /// Reads until the end of the stream and appends the bytes to `buf` as
    /// text; fails with `InvalidData`, leaving `buf` alone, when they are not
    /// valid UTF-8 as a whole.
    fn read_to_string(&mut self, buf: &mut String) -> (r: Result<usize>)
        requires
            old(self).wf(),
        ensures
            final(self).wf(),
            r matches Ok(n) ==> {
                &&& n == old(self).pending().len()
                &&& final(self).pending().len() == 0
                &&& valid_utf8(old(self).pending())
                &&& final(buf)@ == old(buf)@ + decode_utf8(old(self).pending())
            },
            r is Err ==> final(buf)@ == old(buf)@ && took_part(old(self).pending(), final(self).pending(), old(self).pending().len() + 1 as int),
            !valid_utf8(old(self).pending()) ==> r is Err,
            final(self).infallible() == old(self).infallible(),
            final(self).greedy() == old(self).greedy(),
            old(self).infallible() ==> (r is Ok <==> valid_utf8(old(self).pending())),
            old(self).infallible() && !valid_utf8(old(self).pending()) ==> r == Err::<usize, Error>(Error::InvalidData),
    {
        let mut bytes: Vec<u8> = Vec::new();
        match self.read_to_end(&mut bytes) {
            Ok(_) => {
                proof {
                    assert(bytes@ =~= old(self).pending());
                }
                append_utf8(buf, bytes.as_slice())
            },
            Err(e) => Err(e),
        }
    }
}

/// Relies on `core::str::from_utf8`: it accepts exactly the valid UTF-8
/// byte strings and reads them as the text they encode.
#[verifier::external_body]
fn utf8_text(bytes: &[u8]) -> (r: Option<&str>)
    ensures
        r is Some <==> valid_utf8(bytes@),
        r matches Some(s) ==> s@ == decode_utf8(bytes@),
{
    core::str::from_utf8(bytes).ok()
}

/// Relies on `String::push_str`: the text is appended.
#[verifier::external_body]
fn push_text(buf: &mut String, s: &str)
    ensures
        final(buf)@ == old(buf)@ + s@,
{
    buf.push_str(s)
}

/// Appends `bytes` to `buf` as text when they are valid UTF-8 as a whole, and
/// returns how many bytes that was; otherwise leaves `buf` alone and fails
/// with `InvalidData`.
pub fn append_utf8(buf: &mut String, bytes: &[u8]) -> (r: Result<usize>)
    ensures
        valid_utf8(bytes@) ==> r == Ok::<usize, Error>(bytes@.len() as usize) && final(buf)@ == old(buf)@ + decode_utf8(bytes@),
        !valid_utf8(bytes@) ==> r == Err::<usize, Error>(Error::InvalidData) && final(buf)@ == old(buf)@,
{
    match utf8_text(bytes) {
        Some(s) => {
            push_text(buf, s);
            Ok(bytes.len())
        },
        None => Err(Error::InvalidData),
    }
}

/// The bytes that a run of reads handed out, in order: of each buffer, the
/// part its read filled.
pub open spec fn delivered(outs: Seq<Seq<u8>>, counts: Seq<usize>) -> Seq<u8>
    decreases outs.len(),
{
    if outs.len() == 0 || counts.len() == 0 {
        Seq::empty()
    } else {
        delivered(outs.drop_last(), counts.drop_last()) + outs.last().take(counts.last() as int)
    }
}

/// Reads of any sizes hand out a source's bytes in order, none lost and none
/// repeated: what they handed out, followed by what is still pending, is
/// what was pending at first. When the last read returned zero into a
/// non-empty buffer, what they handed out is all of it.
///
/// `pending[i]` is what was pending before read `i`, which had a buffer of
/// `rooms[i]` bytes, left `outs[i]` in it and returned `counts[i]`.
pub proof fn lemma_reads_deliver_stream(pending: Seq<Seq<u8>>, rooms: Seq<int>, outs: Seq<Seq<u8>>, counts: Seq<usize>)
    requires
        pending.len() == counts.len() + 1,
        rooms.len() == counts.len(),
        outs.len() == counts.len(),
        forall|i: int| 0 <= i < counts.len() ==> read_step(
            #[trigger] pending[i],
            pending[i + 1],
            rooms[i],
            outs[i],
            Ok::<usize, Error>(counts[i]),
        ),
    ensures
        delivered(outs, counts) + pending.last() == pending[0],
        counts.len() > 0 && counts.last() == 0 && rooms.last() > 0 ==> delivered(outs, counts) == pending[0],
    decreases counts.len(),
{
    let k = counts.len() as int;
    if k == 0 {
        assert(delivered(outs, counts) + pending.last() =~= pending[0]);
    } else {
        let p2 = pending.drop_last();
        let r2 = rooms.drop_last();
        let o2 = outs.drop_last();
        let c2 = counts.drop_last();
        assert forall|i: int| 0 <= i < c2.len() implies read_step(
            #[trigger] p2[i],
            p2[i + 1],
            r2[i],
            o2[i],
            Ok::<usize, Error>(c2[i]),
        ) by {
            assert(read_step(pending[i], pending[i + 1], rooms[i], outs[i], Ok::<usize, Error>(counts[i])));
        }
        lemma_reads_deliver_stream(p2, r2, o2, c2);
        let before = pending[k - 1];
        let n = counts[k - 1] as int;
        assert(read_step(pending[k - 1], pending[k], rooms[k - 1], outs[k - 1], Ok::<usize, Error>(counts[k - 1])));
        assert(before.take(n) + before.skip(n) =~= before);
        assert(delivered(outs, counts) == delivered(o2, c2) + outs[k - 1].take(n));
        assert(delivered(outs, counts) + pending.last() =~= delivered(o2, c2) + before);
        if counts.last() == 0 && rooms.last() > 0 {
            assert(pending.last() =~= Seq::<u8>::empty());
            assert(delivered(outs, counts) + pending.last() =~= delivered(outs, counts));
        }
    }
}

} // verus!
