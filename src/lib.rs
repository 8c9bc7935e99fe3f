//! Buffered byte I/O: a read window and a write stage between application
//! code and an unbuffered source or sink, with delimiter scans and chunked
//! transfers built on top of them.
use vstd::prelude::*;

pub mod buf;
pub mod buffered;
pub mod error;
mod impls;
pub mod iobuf;
pub mod read;
pub mod write;

pub use buf::{Buf, BufMut};
pub use buffered::{BufReader, BufWriter};
pub use error::{Error, Result};
pub use iobuf::IoBuf;
pub use read::{BufRead, Lines, Read, Split};
pub use write::Write;

verus! {

/// I/O poll results.
#[derive(Debug, Default, Clone, Copy)]
pub struct PollState {
    /// Object can be read now.
    pub readable: bool,
    /// Object can be written now.
    pub writable: bool,
}

} // verus!
