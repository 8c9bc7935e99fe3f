use axio::buffered::bufreader::buffer::DEFAULT_BUF_SIZE;
use axio::{BufRead, BufReader, Read, Result};

struct TempReader {
    data: &'static [u8],
    pos: usize,
}

impl TempReader {
    fn new(data: &'static [u8]) -> Self {
        Self { data, pos: 0 }
    }
}

impl Read for TempReader {
    fn read(&mut self, buf: &mut [u8]) -> Result<usize> {
        let remaining = self.data.len() - self.pos;
        if remaining == 0 {
            return Ok(0);
        }
        let to_copy = core::cmp::min(buf.len(), remaining);
        buf[..to_copy].copy_from_slice(&self.data[self.pos..self.pos + to_copy]);
        self.pos += to_copy;
        Ok(to_copy)
    }
}

#[test]
fn test_get_ref() {
    let reader = TempReader::new(b"test");
    let buf_reader = BufReader::new(reader);
    assert_eq!(buf_reader.get_ref().data, b"test");
}

#[test]
fn test_get_mut() {
    let reader = TempReader::new(b"test");
    let mut buf_reader = BufReader::new(reader);
    assert_eq!(buf_reader.get_mut().data, b"test");
}

#[test]
fn test_buffer_empty() {
    let reader = TempReader::new(b"");
    let buf_reader = BufReader::new(reader);
    assert!(buf_reader.buffer().is_empty());
}

#[test]
fn test_into_inner() {
    let reader = TempReader::new(b"test");
    let buf_reader = BufReader::new(reader);
    let inner = buf_reader.into_inner();
    assert_eq!(inner.data, b"test");
}

#[test]
fn test_read_small() {
    let reader = TempReader::new(b"hello world");
    let mut buf_reader = BufReader::new(reader);

    let mut buf = [0; 5];
    assert_eq!(buf_reader.read(&mut buf).unwrap(), 5);
    assert_eq!(&buf, b"hello");

    assert_eq!(buf_reader.read(&mut buf).unwrap(), 5);
    assert_eq!(&buf, b" worl");

    assert_eq!(buf_reader.read(&mut buf).unwrap(), 1);
    assert_eq!(&buf[..1], b"d");

    assert_eq!(buf_reader.read(&mut buf).unwrap(), 0);
}

#[test]
fn test_read_large() {
    const DATA: &'static [u8] = &[1u8; DEFAULT_BUF_SIZE * 2];
    let reader = TempReader::new(DATA);
    let mut buf_reader = BufReader::new(reader);

    let mut buf = [0u8; DEFAULT_BUF_SIZE * 2];
    assert_eq!(buf_reader.read(&mut buf).unwrap(), DEFAULT_BUF_SIZE * 2);
    assert_eq!(&buf, DATA);
}

#[test]
fn test_read_exact() {
    let reader = TempReader::new(b"hello world");
    let mut buf_reader = BufReader::new(reader);

    let mut buf = [0; 5];
    buf_reader.read_exact(&mut buf).unwrap();
    assert_eq!(&buf, b"hello");

    buf_reader.read_exact(&mut buf).unwrap();
    assert_eq!(&buf, b" worl");

    let mut buf2 = [0; 1];
    buf_reader.read_exact(&mut buf2).unwrap();
    assert_eq!(&buf2, b"d");

    let mut buf3 = [0; 1];
    assert!(buf_reader.read_exact(&mut buf3).is_err());
}

#[test]
fn test_read_to_end() {
    let reader = TempReader::new(b"hello world");
    let mut buf_reader = BufReader::new(reader);

    let mut buf = Vec::new();
    assert_eq!(buf_reader.read_to_end(&mut buf).unwrap(), 11);
    assert_eq!(buf, b"hello world");
}

#[test]
fn test_read_to_string() {
    let reader = TempReader::new(b"hello world");
    let mut buf_reader = BufReader::new(reader);

    let mut buf = String::new();
    assert_eq!(buf_reader.read_to_string(&mut buf).unwrap(), 11);
    assert_eq!(buf, "hello world");
}

#[test]
fn test_fill_buf() {
    let reader = TempReader::new(b"hello world");
    let mut buf_reader = BufReader::new(reader);

    let buf = buf_reader.fill_buf().unwrap();
    assert_eq!(buf, b"hello world");

    buf_reader.consume(5);
    let buf = buf_reader.fill_buf().unwrap();
    assert_eq!(buf, b" world");
}

#[test]
fn test_consume() {
    let reader = TempReader::new(b"hello world");
    let mut buf_reader = BufReader::new(reader);

    buf_reader.fill_buf().unwrap();
    assert_eq!(buf_reader.buffer(), b"hello world");

    buf_reader.consume(5);
    assert_eq!(buf_reader.buffer(), b" world");

    buf_reader.consume(6);
    assert!(buf_reader.buffer().is_empty());
}

#[test]
fn test_edge_cases() {
    // Empty reader
    let reader = TempReader::new(b"");
    let mut buf_reader = BufReader::new(reader);
    let mut buf = [0; 1];
    assert_eq!(buf_reader.read(&mut buf).unwrap(), 0);

    // Single byte
    let reader = TempReader::new(b"x");
    let mut buf_reader = BufReader::new(reader);
    let mut buf = [0; 1];
    assert_eq!(buf_reader.read(&mut buf).unwrap(), 1);
    assert_eq!(buf[0], b'x');

    // Exact buffer size
    const DATA: &'static [u8] = &[1u8; DEFAULT_BUF_SIZE];
    let reader = TempReader::new(DATA);
    let mut buf_reader = BufReader::new(reader);
    let mut buf = [0u8; DEFAULT_BUF_SIZE];
    assert_eq!(buf_reader.read(&mut buf).unwrap(), DEFAULT_BUF_SIZE);
    assert_eq!(&buf, DATA);
}
