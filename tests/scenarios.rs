use axio::buffered::bufreader::buffer::Buffer;
use axio::{Buf, BufRead, BufReader, BufWriter, Read, Result, Write};

/// A source that hands out its bytes and counts how often it was asked.
struct Counting {
    data: Vec<u8>,
    pos: usize,
    calls: usize,
}

impl Counting {
    fn new(data: &[u8]) -> Self {
        Self { data: data.to_vec(), pos: 0, calls: 0 }
    }
}

impl Read for Counting {
    fn read(&mut self, buf: &mut [u8]) -> Result<usize> {
        self.calls += 1;
        let n = core::cmp::min(buf.len(), self.data.len() - self.pos);
        buf[..n].copy_from_slice(&self.data[self.pos..self.pos + n]);
        self.pos += n;
        Ok(n)
    }
}

fn read_all_in_steps<R: Read>(reader: &mut R, step: usize) -> Vec<u8> {
    let mut out = Vec::new();
    let mut chunk = vec![0u8; step];
    loop {
        let n = reader.read(&mut chunk).unwrap();
        if n == 0 {
            return out;
        }
        out.extend_from_slice(&chunk[..n]);
    }
}

#[test]
fn window_consume_yields_suffix_and_clamps() {
    let mut src: &[u8] = b"abcdef";
    let mut window = Buffer::with_capacity(8);
    assert_eq!(window.fill_buf(&mut src).unwrap(), b"abcdef");
    window.consume(2);
    assert_eq!(window.buffer(), b"cdef");
    assert_eq!(window.pos(), 2);
    window.consume(100);
    assert_eq!(window.buffer(), b"");
    assert_eq!(window.pos(), 6);
    assert_eq!(window.filled(), 6);
}

#[test]
fn reader_consume_clamps_to_window() {
    let mut reader = BufReader::with_capacity(4, Counting::new(b"hello world"));
    assert_eq!(reader.fill_buf().unwrap(), b"hell");
    reader.consume(10);
    assert!(reader.buffer().is_empty());
    let mut rest = Vec::new();
    reader.read_to_end(&mut rest).unwrap();
    assert_eq!(rest, b"o world");
}

#[test]
fn round_trip_through_writer_and_reader() {
    let data: Vec<u8> = (0..200u32).map(|i| (i * 7 % 251) as u8).collect();
    let mut writer = BufWriter::with_capacity(16, Vec::new());
    let sizes = [1usize, 5, 16, 17, 3, 40, 0, 2];
    let mut at = 0;
    let mut k = 0;
    while at < data.len() {
        let n = core::cmp::min(sizes[k % sizes.len()], data.len() - at);
        writer.write_all(&data[at..at + n]).unwrap();
        at += n;
        k += 1;
    }
    writer.flush().unwrap();
    let store = writer.into_inner().ok().unwrap();
    assert_eq!(store, data);

    for step in [1usize, 3, 7, 16, 64, 500] {
        let mut reader = BufReader::with_capacity(7, &store[..]);
        assert_eq!(read_all_in_steps(&mut reader, step), data);
    }
}

#[test]
fn fill_buf_twice_reads_once() {
    let mut reader = BufReader::with_capacity(4, Counting::new(b"hello"));
    let first = reader.fill_buf().unwrap().to_vec();
    let calls = reader.get_ref().calls;
    let second = reader.fill_buf().unwrap().to_vec();
    assert_eq!(first, b"hell");
    assert_eq!(first, second);
    assert_eq!(reader.get_ref().calls, calls);
}

#[test]
fn reads_around_capacity_lose_nothing() {
    let cap = 8;
    let data: Vec<u8> = (0..(2 * cap) as u8).collect();
    for step in [cap - 1, cap, cap + 1] {
        let mut reader = BufReader::with_capacity(cap, Counting::new(&data));
        assert_eq!(read_all_in_steps(&mut reader, step), data);
    }
}

#[test]
fn small_window_reads_hello_world() {
    let mut reader = BufReader::with_capacity(4, Counting::new(b"hello world"));
    let mut buf = [0u8; 5];
    assert_eq!(reader.read(&mut buf).unwrap(), 5);
    assert_eq!(&buf, b"hello");
    assert_eq!(reader.read(&mut buf).unwrap(), 5);
    assert_eq!(&buf, b" worl");
    assert_eq!(reader.read(&mut buf).unwrap(), 1);
    assert_eq!(&buf[..1], b"d");
    assert_eq!(reader.read(&mut buf).unwrap(), 0);
}

#[test]
fn read_until_newlines() {
    let mut reader = BufReader::with_capacity(2, Counting::new(b"a\nbc\n"));
    let mut out = Vec::new();
    assert_eq!(reader.read_until(b'\n', &mut out).unwrap(), 2);
    assert_eq!(out, b"a\n");
    out.clear();
    assert_eq!(reader.read_until(b'\n', &mut out).unwrap(), 3);
    assert_eq!(out, b"bc\n");
    out.clear();
    assert_eq!(reader.read_until(b'\n', &mut out).unwrap(), 0);
    assert_eq!(out, b"");
}

#[test]
fn chunked_pull_transfer() {
    let data: Vec<u8> = (0..10000u32).map(|i| i as u8).collect();
    let mut src: &[u8] = &data;
    let mut sizes = Vec::new();
    let mut seen = Vec::new();
    let total = Buf::consume(&mut src, |chunk: &[u8]| {
        sizes.push(chunk.len());
        seen.extend_from_slice(chunk);
        Ok(chunk.len())
    })
    .unwrap();
    assert_eq!(total, 10000);
    assert!(sizes.len() > 1);
    assert!(sizes.iter().all(|&n| n <= 4096));
    assert_eq!(seen, data);
    assert_eq!(src.len(), 0);
}

#[test]
fn read_exact_spans_window_and_source() {
    let mut reader = BufReader::with_capacity(3, Counting::new(b"abcde"));
    assert_eq!(reader.fill_buf().unwrap(), b"abc");
    let mut buf = [0u8; 5];
    reader.read_exact(&mut buf).unwrap();
    assert_eq!(&buf, b"abcde");
    assert!(reader.buffer().is_empty());
    let mut one = [0u8; 1];
    assert_eq!(reader.read(&mut one).unwrap(), 0);
}
