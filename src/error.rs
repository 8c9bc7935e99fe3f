use vstd::prelude::*;

verus! {

/// The error code type of the ArceOS error crate, carried through unchanged
/// when a source or sink reports a failure of its own.
#[verifier::external_type_specification]
#[verifier::external_body]
pub struct ExAxError(axerrno::AxError);

/// Why an I/O operation of this crate did not complete.
#[derive(Clone, Copy, Debug, PartialEq, Eq)]
pub enum Error {
    /// The source ran dry before the requested number of bytes arrived.
    UnexpectedEof,
    /// Bytes that were to be read as text are not valid UTF-8.
    InvalidData,
    /// The sink accepted no byte of a non-empty write.
    WriteZero,
    /// A failure reported by the wrapped source or sink, passed on unchanged.
    Device(axerrno::AxError),
}

/// The result type of every fallible operation of this crate.
pub type Result<T> = core::result::Result<T, Error>;

} // verus!
