use vstd::prelude::*;
use vstd::utf8::{decode_utf8, valid_utf8};

use crate::error::{Error, Result};
use crate::read::{append_utf8, drained_into, Read};

verus! {

/// `n` bytes of `s` make up its first record: everything up to and including
/// the first `delim`, or all of `s` when it holds none.
pub open spec fn is_record(s: Seq<u8>, delim: u8, n: int) -> bool {
    &&& 0 <= n <= s.len()
    &&& forall|i: int| 0 <= i < n - 1 ==> s[i] != delim
    &&& n < s.len() ==> n > 0 && s[n - 1] == delim
}

/// `s` does not hold `delim` in its first `k` bytes.
pub open spec fn free_of(s: Seq<u8>, delim: u8, k: int) -> bool {
    forall|i: int| 0 <= i < k ==> s[i] != delim
}

/// A record without its delimiter, when it ends with one.
pub open spec fn strip_delim(rec: Seq<u8>, delim: u8) -> Seq<u8> {
    if rec.len() > 0 && rec.last() == delim {
        rec.drop_last()
    } else {
        rec
    }
}

/// A line without its `\n`, and without a `\r` just before that.
pub open spec fn strip_line(rec: Seq<u8>) -> Seq<u8> {
    if rec.len() > 0 && rec.last() == 0x0au8 {
        let body = rec.drop_last();
        if body.len() > 0 && body.last() == 0x0du8 {
            body.drop_last()
        } else {
            body
        }
    } else {
        rec
    }
}

/// Relies on `memchr::memchr`: the index of the first occurrence of
/// `needle` in `haystack`, or none when it does not occur.
pub assume_specification[ memchr::memchr ](needle: u8, haystack: &[u8]) -> (r: Option<usize>)
    ensures
        r matches Some(i) ==> i < haystack@.len() && haystack@[i as int] == needle && free_of(haystack@, needle, i as int),
        r is None ==> free_of(haystack@, needle, haystack@.len() as int),
;

/// Looks for `byte` in one window: returns whether it occurs and how many
/// bytes of the window belong to the current record, the delimiter
/// included.
pub fn scan_window(available: &[u8], byte: u8) -> (r: (bool, usize))
    ensures
        r.1 <= available@.len(),
        is_record(available@, byte, r.1 as int),
        r.0 <==> !free_of(available@, byte, available@.len() as int),
        r.0 ==> r.1 > 0 && available@[r.1 - 1] == byte,
        !r.0 ==> r.1 == available@.len(),
{
    match memchr::memchr(byte, available) {
        Some(i) => {
            assert(i < available.len());
            (true, i + 1)
        },
        None => (false, available.len()),
    }
}

/// The item that `Split::next` makes of one `read_until` outcome `r`, where
/// `rec` holds the bytes that call appended.
pub fn split_item(r: Result<usize>, rec: Vec<u8>, delim: u8) -> (item: Option<Result<Vec<u8>>>)
    requires
        r matches Ok(n) ==> n == rec@.len(),
    ensures
        r == Ok::<usize, Error>(0) ==> item is None,
        r matches Ok(n) ==> (n > 0 ==> (item matches Some(Ok(v)) && v@ == strip_delim(rec@, delim))),
        r matches Err(e) ==> item == Some(Err::<Vec<u8>, Error>(e)),
{
    match r {
        Ok(0) => None,
        Ok(_) => {
            let mut v = rec;
            let ghost whole = v@;
            if v[v.len() - 1] == delim {
                v.pop();
            }
            proof {
                assert(v@ =~= strip_delim(whole, delim));
            }
            Some(Ok(v))
        },
        Err(e) => Some(Err(e)),
    }
}

/// The item that `Lines::next` makes of one `read_until` outcome `r`, where
/// `rec` holds the bytes that call appended: the line without its ending,
/// or `InvalidData` when that is not valid UTF-8.
pub fn line_item(r: Result<usize>, rec: Vec<u8>) -> (item: Option<Result<String>>)
    requires
        r matches Ok(n) ==> n == rec@.len(),
    ensures
        r == Ok::<usize, Error>(0) ==> item is None,
        r matches Ok(n) ==> (n > 0 && valid_utf8(strip_line(rec@)) ==> (item matches Some(Ok(t)) && t@ == decode_utf8(strip_line(rec@)))),
        r matches Ok(n) ==> (n > 0 && !valid_utf8(strip_line(rec@)) ==> item == Some(Err::<String, Error>(Error::InvalidData))),
        r matches Err(e) ==> item == Some(Err::<String, Error>(e)),
{
    match r {
        Ok(0) => None,
        Ok(_) => {
            let mut bytes = rec;
            let ghost whole = bytes@;
            if bytes[bytes.len() - 1] == 0x0au8 {
                bytes.pop();
                if bytes.len() > 0 && bytes[bytes.len() - 1] == 0x0du8 {
                    bytes.pop();
                }
            }
            proof {
                assert(bytes@ =~= strip_line(whole));
            }
            let mut line = String::new();
            match append_utf8(&mut line, bytes.as_slice()) {
                Ok(_) => {
                    proof {
                        assert(Seq::<char>::empty() + decode_utf8(bytes@) =~= decode_utf8(bytes@));
                    }
                    Some(Ok(line))
                },
                Err(e) => Some(Err(e)),
            }
        },
        Err(e) => Some(Err(e)),
    }
}

/// A source with a window of bytes that can be looked at before they are
/// consumed.
pub trait BufRead: Read {
    /// The bytes that the window holds now: the front of `pending`.
    ///
    /// The default describes a source whose window is always empty.
    closed spec fn buffered(&self) -> Seq<u8> {
        Seq::empty()
    }

    /// Returns the window, refilling it first when it is empty. An empty
    /// window comes back only at the end of the stream; a window that holds
    /// bytes comes back as it is.
    fn fill_buf(&mut self) -> (r: Result<&[u8]>)
        requires
            old(self).wf(),
        ensures
            final(self).wf(),
            final(self).infallible() == old(self).infallible(),
            final(self).greedy() == old(self).greedy(),
            final(self).pending() == old(self).pending(),
            r matches Ok(s) ==> {
                &&& s@ == final(self).buffered()
                &&& s@.len() <= final(self).pending().len()
                &&& s@ == final(self).pending().take(s@.len() as int)
                &&& (s@.len() == 0 ==> final(self).pending().len() == 0)
            },
            old(self).infallible() ==> r is Ok,
            old(self).buffered().len() > 0 ==> (r matches Ok(s) && s@ == old(self).buffered()),
    ;

    /// Marks `amt` bytes of the window as read; more than it holds marks
    /// them all.
    fn consume(&mut self, amt: usize)
        requires
            old(self).wf(),
        ensures
            final(self).wf(),
            final(self).infallible() == old(self).infallible(),
            final(self).greedy() == old(self).greedy(),
            final(self).pending() == old(self).pending().skip(
                vstd::math::min(amt as int, old(self).buffered().len() as int),
            ),
            final(self).buffered() == old(self).buffered().skip(
                vstd::math::min(amt as int, old(self).buffered().len() as int),
            ),
    ;

    /// Whether any byte is left to read.
    fn has_data_left(&mut self) -> (r: Result<bool>)
        requires
            old(self).wf(),
        ensures
            final(self).wf(),
            final(self).infallible() == old(self).infallible(),
            final(self).greedy() == old(self).greedy(),
            final(self).pending() == old(self).pending(),
            r matches Ok(b) ==> b == (old(self).pending().len() > 0),
            old(self).infallible() ==> r is Ok,
    {
        match self.fill_buf() {
            Ok(b) => Ok(b.len() != 0),
            Err(e) => Err(e),
        }
    }

    /// Skips the first record: every byte up to and including the next
    /// `byte`, or to the end of the stream. Returns how many were skipped,
    /// or `usize::MAX` when there were more.
    fn skip_until(&mut self, byte: u8) -> (r: Result<usize>)
        requires
            old(self).wf(),
        ensures
            final(self).wf(),
            final(self).infallible() == old(self).infallible(),
            final(self).greedy() == old(self).greedy(),
            final(self).pending().len() <= old(self).pending().len(),
            final(self).pending() == old(self).pending().skip(old(self).pending().len() - final(self).pending().len()),
            r matches Ok(n) ==> {
                let k = old(self).pending().len() - final(self).pending().len();
                &&& is_record(old(self).pending(), byte, k)
                &&& n == vstd::math::min(k, usize::MAX as int)
            },
            r is Err ==> free_of(old(self).pending(), byte, old(self).pending().len() - final(self).pending().len()),
            old(self).infallible() ==> r is Ok,
    {
        let mut read: usize = 0;
        let ghost mut k: int = 0;
        proof {
            assert(old(self).pending().skip(0) =~= old(self).pending());
        }
        loop
            invariant
                self.wf(),
                self.infallible() == old(self).infallible(),
                self.greedy() == old(self).greedy(),
                0 <= k <= old(self).pending().len(),
                read == vstd::math::min(k, usize::MAX as int),
                self.pending() == old(self).pending().skip(k),
                free_of(old(self).pending(), byte, k),
            decreases self.pending().len(),
        {
            let ghost before = self.pending();
            let (done, used) = match self.fill_buf() {
                Ok(available) => scan_window(available, byte),
                Err(e) => {
                    return Err(e);
                },
            };
            let ghost window = self.buffered();
            self.consume(used);
            proof {
                assert(window == before.take(window.len() as int));
                assert(old(self).pending().skip(k + used) =~= before.skip(used as int));
                assert forall|i: int| 0 <= i < k + used - (if done { 1int } else { 0 }) implies old(self).pending()[i] != byte by {
                    if i >= k {
                        assert(old(self).pending()[i] == before[i - k]);
                        assert(before[i - k] == window[i - k]);
                    }
                }
                if done {
                    assert(old(self).pending()[k + used - 1] == window[used - 1]);
                }
                k = k + used;
            }
            read = read.saturating_add(used);
            if done || used == 0 {
                return Ok(read);
            }
        }
    }

    /// Appends the first record to `buf`: every byte up to and including the
    /// next `byte`, or to the end of the stream. Returns its length.
    fn read_until(&mut self, byte: u8, buf: &mut Vec<u8>) -> (r: Result<usize>)
        requires
            old(self).wf(),
        ensures
            final(self).wf(),
            final(self).infallible() == old(self).infallible(),
            final(self).greedy() == old(self).greedy(),
            drained_into(old(buf)@, final(buf)@, old(self).pending(), final(self).pending()),
            r matches Ok(n) ==> n == final(buf)@.len() - old(buf)@.len()
                && is_record(old(self).pending(), byte, n as int),
            r is Err ==> free_of(old(self).pending(), byte, final(buf)@.len() - old(buf)@.len()),
            old(self).infallible() ==> r is Ok,
    {
        let start = buf.len();
        let mut read: usize = 0;
        proof {
            assert(old(buf)@ + old(self).pending().take(0) =~= old(buf)@);
            assert(old(self).pending().skip(0) =~= old(self).pending());
        }
        loop
            invariant
                self.wf(),
                self.infallible() == old(self).infallible(),
                self.greedy() == old(self).greedy(),
                start == old(buf)@.len(),
                read == buf@.len() - start,
                drained_into(old(buf)@, buf@, old(self).pending(), self.pending()),
                free_of(old(self).pending(), byte, read as int),
            decreases self.pending().len(),
        {
            let ghost before = self.pending();
            let ghost out_before = buf@;
            let (done, used) = match self.fill_buf() {
                Ok(available) => {
                    let (done, used) = scan_window(available, byte);
                    buf.extend_from_slice(vstd::slice::slice_subrange(available, 0, used));
                    (done, used)
                },
                Err(e) => {
                    return Err(e);
                },
            };
            let ghost window = self.buffered();
            self.consume(used);
            proof {
                assert(window == before.take(window.len() as int));
                assert(buf@ =~= out_before + before.take(used as int));
                assert(old(self).pending().take(read + used) =~= old(self).pending().take(read as int) + before.take(used as int));
                assert(old(self).pending().skip(read + used) =~= before.skip(used as int));
                assert(self.pending() == old(self).pending().skip(read + used));
                assert(buf@ =~= old(buf)@ + old(self).pending().take(read + used));
                assert(buf@.len() - old(buf)@.len() == read + used);
                assert forall|i: int| 0 <= i < read + used - (if done { 1int } else { 0 }) implies old(self).pending()[i] != byte by {
                    if i >= read {
                        assert(old(self).pending()[i] == before[i - read]);
                        assert(before[i - read] == window[i - read]);
                    }
                }
                if done {
                    assert(old(self).pending()[read + used - 1] == window[used - 1]);
                }
            }
            read = buf.len() - start;
            if done || used == 0 {
                return Ok(read);
            }
        }
    }

    /// Appends the next line, `\n` included, to `buf` as text. Fails with
    /// `InvalidData`, leaving `buf` alone, when the line is not valid UTF-8;
    /// the line is consumed either way.
    fn read_line(&mut self, buf: &mut String) -> (r: Result<usize>)
        requires
            old(self).wf(),
        ensures
            final(self).wf(),
            final(self).infallible() == old(self).infallible(),
            final(self).greedy() == old(self).greedy(),
            r matches Ok(n) ==> {
                let line = old(self).pending().take(n as int);
                &&& is_record(old(self).pending(), 0x0au8, n as int)
                &&& final(self).pending() == old(self).pending().skip(n as int)
                &&& valid_utf8(line)
                &&& final(buf)@ == old(buf)@ + decode_utf8(line)
            },
            r is Err ==> final(buf)@ == old(buf)@,
            old(self).infallible() ==> {
                let k = old(self).pending().len() - final(self).pending().len();
                &&& 0 <= k <= old(self).pending().len()
                &&& is_record(old(self).pending(), 0x0au8, k)
                &&& final(self).pending() == old(self).pending().skip(k)
                &&& (r is Ok <==> valid_utf8(old(self).pending().take(k)))
                &&& (r is Err ==> r == Err::<usize, Error>(Error::InvalidData))
            },
    {
        let mut bytes: Vec<u8> = Vec::new();
        match self.read_until(0x0au8, &mut bytes) {
            Ok(_) => {
                proof {
                    assert(bytes@ =~= old(self).pending().take(bytes@.len() as int));
                }
                append_utf8(buf, bytes.as_slice())
            },
            Err(e) => Err(e),
        }
    }

    /// The records of this source, each without its trailing `byte`.
    fn split(self, byte: u8) -> (r: Split<Self>) where Self: Sized
        ensures
            r.source() == self,
            r.delim() == byte,
    {
        Split { buf: self, delim: byte }
    }

    /// The lines of this source, each without its line ending.
    fn lines(self) -> (r: Lines<Self>) where Self: Sized
        ensures
            r.source() == self,
    {
        Lines { buf: self }
    }
}

/// The records of a source, split on one delimiter byte; made by
/// `BufRead::split`.
#[derive(Debug)]
pub struct Split<B> {
    buf: B,
    delim: u8,
}

impl<B> Split<B> {
    pub closed spec fn source(&self) -> B {
        self.buf
    }

    pub closed spec fn delim(&self) -> u8 {
        self.delim
    }
}

impl<B: BufRead> Split<B> {
    /// The next record without its delimiter; none at the end of the stream.
    pub fn next(&mut self) -> (r: Option<Result<Vec<u8>>>)
        requires
            old(self).source().wf(),
        ensures
            final(self).source().wf(),
            final(self).source().infallible() == old(self).source().infallible(),
            final(self).delim() == old(self).delim(),
            ({
                let p = old(self).source().pending();
                let k = p.len() - final(self).source().pending().len();
                &&& 0 <= k <= p.len()
                &&& final(self).source().pending() == p.skip(k)
                &&& r is None ==> k == 0 && p.len() == 0
                &&& r matches Some(Ok(v)) ==> {
                    &&& 0 < k
                    &&& is_record(p, old(self).delim(), k)
                    &&& v@ == strip_delim(p.take(k), old(self).delim())
                }
                &&& r matches Some(Err(_)) ==> free_of(p, old(self).delim(), k)
            }),
            old(self).source().infallible() ==> r matches None || r matches Some(Ok(_)),
    {
        let mut buf: Vec<u8> = Vec::new();
        let r = self.buf.read_until(self.delim, &mut buf);
        proof {
            assert(buf@ =~= old(self).source().pending().take(buf@.len() as int));
        }
        split_item(r, buf, self.delim)
    }
}

/// The lines of a source as text; made by `BufRead::lines`.
#[derive(Debug)]
pub struct Lines<B> {
    buf: B,
}

impl<B> Lines<B> {
    pub closed spec fn source(&self) -> B {
        self.buf
    }
}

impl<B: BufRead> Lines<B> {
    /// The next line without its `\n` or `\r\n`; none at the end of the
    /// stream, and `InvalidData` for a line that is not valid UTF-8.
    pub fn next(&mut self) -> (r: Option<Result<String>>)
        requires
            old(self).source().wf(),
        ensures
            final(self).source().wf(),
            final(self).source().infallible() == old(self).source().infallible(),
            ({
                let p = old(self).source().pending();
                let k = p.len() - final(self).source().pending().len();
                let line = strip_line(p.take(k));
                &&& 0 <= k <= p.len()
                &&& final(self).source().pending() == p.skip(k)
                &&& r is None ==> k == 0 && p.len() == 0
                &&& r matches Some(Ok(s)) ==> {
                    &&& 0 < k
                    &&& is_record(p, 0x0au8, k)
                    &&& valid_utf8(line)
                    &&& s@ == decode_utf8(line)
                }
                &&& r matches Some(Err(e)) ==> free_of(p, 0x0au8, k) || (
                    e == Error::InvalidData && 0 < k && is_record(p, 0x0au8, k) && !valid_utf8(line))
                &&& old(self).source().infallible() ==> (r is None || (0 < k && is_record(p, 0x0au8, k)
                    && (r matches Some(Ok(_)) <==> valid_utf8(line))
                    && (r matches Some(Err(e)) ==> e == Error::InvalidData)))
            }),
    {
        let mut bytes: Vec<u8> = Vec::new();
        let r = self.buf.read_until(0x0au8, &mut bytes);
        proof {
            assert(bytes@ =~= old(self).source().pending().take(bytes@.len() as int));
        }
        line_item(r, bytes)
    }
}

} // verus!
