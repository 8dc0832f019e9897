//! What the codec makes of the answers of its medium.
use vstd::prelude::*;
use crate::buffer::BufferError;

verus! {

/// What a seek by `position` gives, from the answer of the medium: the new
/// offset, or the offset that was asked for in an `IndexOutOfRange`.
pub fn seek_outcome(answer: Result<u64, std::io::Error>, position: i64) -> (r: Result<
    u64,
    BufferError,
>)
    ensures
        r == match answer {
            Ok(at) => Ok::<u64, BufferError>(at),
            Err(_) => Err((BufferError::IndexOutOfRange { index: position })),
        },
{
    match answer {
        Ok(at) => Ok(at),
        Err(_) => Err(BufferError::IndexOutOfRange { index: position }),
    }
}

/// What a read gives, from the answer of the medium: the bytes, or the fault
/// of the medium in a `ReadFailure`.
pub fn read_outcome(answer: Result<Vec<u8>, std::io::Error>) -> (r: Result<Vec<u8>, BufferError>)
    ensures
        r == match answer {
            Ok(bytes) => Ok::<Vec<u8>, BufferError>(bytes),
            Err(error) => Err((BufferError::ReadFailure { error })),
        },
{
    match answer {
        Ok(bytes) => Ok(bytes),
        Err(error) => Err(BufferError::ReadFailure { error }),
    }
}

/// What a write gives, from the answer of the medium: the number of bytes, or
/// an `IOFailure` that keeps nothing of the fault.
pub fn write_outcome(answer: Result<usize, std::io::Error>) -> (r: Result<u64, BufferError>)
    ensures
        r == match answer {
            Ok(count) => Ok::<u64, BufferError>(count as u64),
            Err(_) => Err(BufferError::IOFailure),
        },
{
    match answer {
        Ok(count) => Ok(count as u64),
        Err(_) => Err(BufferError::IOFailure),
    }
}

} // verus!
