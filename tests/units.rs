use axio::buffered::bufreader::buffer::Buffer as Window;
use axio::buffered::bufwriter::{buffer_array, buffer_vec};
use axio::read::append_utf8;
use axio::read::bufread::{line_item, scan_window, split_item};
use axio::write::nonzero_write;
use axio::{BufMut, BufRead, BufReader, BufWriter, Error, IoBuf, Read, Result, Write};
use axerrno::AxError;

/// A sink that takes at most `limit` bytes per write and keeps them.
struct Trickle {
    taken: Vec<u8>,
    limit: usize,
    writes: usize,
}

impl Write for Trickle {
    fn write(&mut self, buf: &[u8]) -> Result<usize> {
        self.writes += 1;
        let n = core::cmp::min(self.limit, buf.len());
        self.taken.extend_from_slice(&buf[..n]);
        Ok(n)
    }

    fn flush(&mut self) -> Result<()> {
        Ok(())
    }
}

impl BufMut for Trickle {
    fn remaining_mut(&self) -> usize {
        10
    }
}

/// A source that always fails.
struct Broken;

impl Read for Broken {
    fn read(&mut self, _buf: &mut [u8]) -> Result<usize> {
        Err(Error::Device(AxError::Io))
    }
}

#[test]
fn slice_read_and_read_exact() {
    let mut src: &[u8] = &[1, 2, 3, 4, 5];
    let mut two = [0u8; 2];
    assert_eq!(src.read(&mut two).unwrap(), 2);
    assert_eq!(two, [1, 2]);
    assert_eq!(src.remaining(), 3);
    let mut four = [0u8; 4];
    assert_eq!(src.read_exact(&mut four), Err(Error::UnexpectedEof));
    assert_eq!(src, &[3, 4, 5]);
    let mut three = [0u8; 3];
    src.read_exact(&mut three).unwrap();
    assert_eq!(three, [3, 4, 5]);
    assert_eq!(src.read(&mut three).unwrap(), 0);
}

#[test]
fn slice_read_to_end_and_string() {
    let mut src: &[u8] = b"abc";
    let mut out = vec![9u8];
    assert_eq!(src.read_to_end(&mut out).unwrap(), 3);
    assert_eq!(out, b"\x09abc");
    let mut text: &[u8] = "h\u{e9}!".as_bytes();
    let mut s = String::from("> ");
    assert_eq!(text.read_to_string(&mut s).unwrap(), 4);
    assert_eq!(s, "> h\u{e9}!");
}

#[test]
fn read_to_string_rejects_invalid_utf8() {
    let mut reader = BufReader::with_capacity(2, &[0x61u8, 0xff, 0x62][..]);
    let mut s = String::from("keep");
    assert_eq!(reader.read_to_string(&mut s), Err(Error::InvalidData));
    assert_eq!(s, "keep");
}

#[test]
fn append_utf8_appends_or_refuses() {
    let mut s = String::from("x");
    assert_eq!(append_utf8(&mut s, "y\u{263a}".as_bytes()), Ok(4));
    assert_eq!(s, "xy\u{263a}");
    assert_eq!(append_utf8(&mut s, &[0xe2, 0x98]), Err(Error::InvalidData));
    assert_eq!(s, "xy\u{263a}");
}

#[test]
fn device_errors_pass_through() {
    let mut reader = BufReader::with_capacity(4, Broken);
    let mut buf = [0u8; 2];
    assert_eq!(reader.read(&mut buf), Err(Error::Device(AxError::Io)));
    assert!(reader.fill_buf().is_err());
}

#[test]
fn read_exact_past_end_is_eof() {
    let mut reader = BufReader::with_capacity(4, &b"abc"[..]);
    let mut buf = [0u8; 5];
    assert_eq!(reader.read_exact(&mut buf), Err(Error::UnexpectedEof));
}

#[test]
fn skip_until_and_has_data_left() {
    let mut reader = BufReader::with_capacity(3, &b"xx;yyyy;z"[..]);
    assert_eq!(reader.skip_until(b';').unwrap(), 3);
    assert!(reader.has_data_left().unwrap());
    assert_eq!(reader.skip_until(b';').unwrap(), 5);
    assert_eq!(reader.skip_until(b';').unwrap(), 1);
    assert_eq!(reader.skip_until(b';').unwrap(), 0);
    assert!(!reader.has_data_left().unwrap());
}

#[test]
fn read_line_keeps_newline() {
    let mut reader = BufReader::with_capacity(4, &b"one\r\ntwo"[..]);
    let mut s = String::new();
    assert_eq!(reader.read_line(&mut s).unwrap(), 5);
    assert_eq!(s, "one\r\n");
    assert_eq!(reader.read_line(&mut s).unwrap(), 3);
    assert_eq!(s, "one\r\ntwo");
    assert_eq!(reader.read_line(&mut s).unwrap(), 0);
}

#[test]
fn split_drops_delimiters() {
    let mut parts = BufReader::with_capacity(2, &b"a,bb,,c"[..]).split(b',');
    assert_eq!(parts.next().unwrap().unwrap(), b"a");
    assert_eq!(parts.next().unwrap().unwrap(), b"bb");
    assert_eq!(parts.next().unwrap().unwrap(), b"");
    assert_eq!(parts.next().unwrap().unwrap(), b"c");
    assert!(parts.next().is_none());
}

#[test]
fn lines_strip_line_endings() {
    let mut lines = BufReader::with_capacity(3, &b"first\r\nsecond\n\nlast"[..]).lines();
    assert_eq!(lines.next().unwrap().unwrap(), "first");
    assert_eq!(lines.next().unwrap().unwrap(), "second");
    assert_eq!(lines.next().unwrap().unwrap(), "");
    assert_eq!(lines.next().unwrap().unwrap(), "last");
    assert!(lines.next().is_none());
}

#[test]
fn lines_report_invalid_utf8() {
    let mut lines = BufReader::with_capacity(3, &b"ok\n\xff\nend"[..]).lines();
    assert_eq!(lines.next().unwrap().unwrap(), "ok");
    assert_eq!(lines.next().unwrap(), Err(Error::InvalidData));
    assert_eq!(lines.next().unwrap().unwrap(), "end");
}

#[test]
fn writer_buffers_small_writes() {
    let mut writer = BufWriter::with_capacity(4, Vec::new());
    assert_eq!(writer.write(b"ab").unwrap(), 2);
    assert_eq!(writer.write(b"cd").unwrap(), 2);
    assert!(writer.get_ref().is_empty());
    assert_eq!(writer.buffer(), b"abcd");
    assert_eq!(writer.write(b"e").unwrap(), 1);
    assert_eq!(writer.get_ref(), b"abcd");
    assert_eq!(writer.buffer(), b"e");
    assert_eq!(writer.write(b"123456").unwrap(), 6);
    assert_eq!(writer.get_ref(), b"abcde123456");
    assert!(writer.buffer().is_empty());
    assert_eq!(writer.capacity(), 4);
}

#[test]
fn flush_retries_partial_writes() {
    let sink = Trickle { taken: Vec::new(), limit: 3, writes: 0 };
    let mut writer = BufWriter::with_capacity(8, sink);
    writer.write_all(b"abcdefgh").unwrap();
    assert_eq!(writer.get_ref().writes, 0);
    writer.flush().unwrap();
    assert_eq!(writer.get_ref().taken, b"abcdefgh");
    assert_eq!(writer.get_ref().writes, 3);
    assert!(writer.buffer().is_empty());
}

#[test]
fn flush_into_full_sink_is_write_zero() {
    let sink = Trickle { taken: Vec::new(), limit: 0, writes: 0 };
    let mut writer = BufWriter::with_capacity(8, sink);
    writer.write_all(b"abc").unwrap();
    assert_eq!(writer.flush(), Err(Error::WriteZero));
    assert_eq!(writer.buffer(), b"abc");
    match writer.into_inner() {
        Ok(_) => panic!("a sink that takes nothing cannot be flushed"),
        Err((e, w)) => {
            assert_eq!(e, Error::WriteZero);
            assert_eq!(w.buffer(), b"abc");
        }
    }
}

#[test]
fn write_all_through_partial_sink() {
    let mut sink = Trickle { taken: Vec::new(), limit: 2, writes: 0 };
    sink.write_all(b"hello").unwrap();
    assert_eq!(sink.taken, b"hello");
    assert_eq!(sink.writes, 3);
}

#[test]
fn chunked_push_transfer() {
    let mut sink = Trickle { taken: Vec::new(), limit: 100, writes: 0 };
    let mut next = 0u8;
    let total = sink
        .fill(|chunk: &mut [u8]| {
            for b in chunk.iter_mut() {
                *b = next;
                next += 1;
            }
            Ok(chunk.len())
        })
        .unwrap();
    assert_eq!(total, 10);
    assert_eq!(sink.taken, (0..10).collect::<Vec<u8>>());
}

#[test]
fn chunked_push_stops_when_producer_stops() {
    let mut sink = Trickle { taken: Vec::new(), limit: 100, writes: 0 };
    let total = sink
        .fill(|chunk: &mut [u8]| {
            chunk[0] = 7;
            chunk[1] = 8;
            Ok(2)
        })
        .unwrap();
    assert_eq!(total, 2);
    assert_eq!(sink.taken, [7, 8]);
}

#[test]
fn vec_write_appends() {
    let mut v = vec![1u8];
    assert_eq!(v.write(&[2, 3]).unwrap(), 2);
    v.flush().unwrap();
    assert_eq!(v, [1, 2, 3]);
    assert_eq!(IoBuf::remaining(&v), 3);
}

#[test]
fn array_stage_appends_and_shifts() {
    let mut stage = buffer_array::Buffer::new();
    assert_eq!(stage.capacity(), 1024);
    assert_eq!(stage.append(b"hello"), 5);
    assert_eq!(stage.len(), 5);
    assert_eq!(stage.spare_capacity(), 1019);
    stage.consume(2);
    assert_eq!(stage.as_slice(), b"llo");
    let big = vec![1u8; 2000];
    assert_eq!(stage.append(&big), 1021);
    assert_eq!(stage.spare_capacity(), 0);
}

#[test]
fn vec_stage_appends_and_drains() {
    let mut stage = buffer_vec::Buffer::with_capacity(6);
    assert_eq!(stage.append(b"abcdefgh"), 6);
    assert_eq!(stage.as_slice(), b"abcdef");
    stage.consume(4);
    assert_eq!(stage.as_slice(), b"ef");
    assert_eq!(stage.spare_capacity(), 4);
    assert_eq!(buffer_vec::Buffer::new().capacity(), 1024);
}

#[test]
fn window_unconsume_backshift_and_read_more() {
    let mut src: &[u8] = b"abcdefgh";
    let mut window = Window::with_capacity(6);
    assert_eq!(window.fill_buf(&mut src).unwrap(), b"abcdef");
    window.consume(4);
    window.unconsume(1);
    assert_eq!(window.buffer(), b"def");
    window.unconsume(10);
    assert_eq!(window.pos(), 0);
    window.consume(4);
    window.backshift();
    assert_eq!(window.pos(), 0);
    assert_eq!(window.buffer(), b"ef");
    assert_eq!(window.read_more(&mut src).unwrap(), 2);
    assert_eq!(window.buffer(), b"efgh");
    assert_eq!(window.initialized(), 6);
    let mut seen = Vec::new();
    assert!(window.consume_with(3, |b: &[u8]| seen.extend_from_slice(b)));
    assert_eq!(seen, b"efg");
    assert!(!window.consume_with(2, |b: &[u8]| seen.extend_from_slice(b)));
    assert_eq!(window.buffer(), b"h");
    window.discard_buffer();
    assert!(window.buffer().is_empty());
    assert_eq!(window.initialized(), 6);
}

#[test]
fn array_stage_spare_region() {
    let mut stage = buffer_array::Buffer::new();
    stage.append(b"ab");
    let tail = stage.spare_capacity_mut();
    assert_eq!(tail.len(), 1022);
    tail[0] = b'c';
    tail[1] = b'd';
    stage.set_len(4);
    assert_eq!(stage.as_slice(), b"abcd");
}

#[test]
fn scan_window_finds_record_end() {
    assert_eq!(scan_window(b"ab;cd", b';'), (true, 3));
    assert_eq!(scan_window(b"abcd", b';'), (false, 4));
    assert_eq!(scan_window(b"", b';'), (false, 0));
    assert_eq!(scan_window(b";", b';'), (true, 1));
}

#[test]
fn split_item_maps_outcomes() {
    assert_eq!(split_item(Ok(0), Vec::new(), b','), None);
    assert_eq!(split_item(Ok(3), b"ab,".to_vec(), b','), Some(Ok(b"ab".to_vec())));
    assert_eq!(split_item(Ok(2), b"ab".to_vec(), b','), Some(Ok(b"ab".to_vec())));
    assert_eq!(split_item(Err(Error::Device(AxError::Io)), b"a".to_vec(), b','), Some(Err(Error::Device(AxError::Io))));
}

#[test]
fn line_item_maps_outcomes() {
    assert_eq!(line_item(Ok(0), Vec::new()), None);
    assert_eq!(line_item(Ok(4), b"hi\r\n".to_vec()), Some(Ok(String::from("hi"))));
    assert_eq!(line_item(Ok(2), vec![0xff, b'\n']), Some(Err(Error::InvalidData)));
    assert_eq!(line_item(Err(Error::WriteZero), Vec::new()), Some(Err(Error::WriteZero)));
}

#[test]
fn nonzero_write_flags_empty_writes() {
    assert_eq!(nonzero_write(Ok(0)), Err(Error::WriteZero));
    assert_eq!(nonzero_write(Ok(3)), Ok(3));
    assert_eq!(nonzero_write(Err(Error::InvalidData)), Err(Error::InvalidData));
}
