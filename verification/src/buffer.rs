//! The binary stream codec: a writer and a reader over a seekable byte medium.
use vstd::prelude::*;

pub mod faulty;
pub mod laws;
pub mod layout;
pub mod medium;
pub mod outcome;
pub mod reader;
pub mod seeking;
pub mod writer;

pub use faulty::FaultyStream;
pub use medium::Medium;
pub use medium::MemoryStream;
pub use reader::BufferReader;
pub use writer::BufferWriter;

verus! {

/// The reference point of a relative seek.
#[derive(Clone, Copy, Debug, PartialEq, Eq, Structural)]
pub enum SeekOrigin {
    /// The offset counts from the first byte of the stream.
    Begin,
    /// The offset counts from the cursor.
    Current,
    /// The offset counts from the end of the stream.
    End,
}

/// The order of the bytes of a number in a stream.
#[derive(Clone, Copy, Debug, PartialEq, Eq, Structural)]
pub enum Endianness {
    /// The least significant byte stands at the lowest offset.
    Little,
    /// The most significant byte stands at the lowest offset.
    Big,
}

/// `std::io::Error`, the fault that a medium reports when one of its
/// operations fails. The codec carries it along and never looks into it.
#[verifier::external_type_specification]
#[verifier::external_body]
pub struct ExIoError(std::io::Error);

/// What can go wrong while encoding or decoding.
#[derive(Debug)]
pub enum BufferError {
    /// A seek could not be honoured; `index` is the offset that was asked for.
    IndexOutOfRange { index: i64 },
    /// Fewer bytes remain before the end of the stream than the read needs.
    EndOfStream,
    /// The medium failed to read although enough bytes were declared.
    ReadFailure { error: std::io::Error },
    /// A write failed, or the stream holds a malformed value.
    IOFailure,
}

} // verus!
