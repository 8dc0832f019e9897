//! Cursor control over a medium, shared by the writer and the reader.
use vstd::prelude::*;
use crate::buffer::medium::akin;
use crate::buffer::medium::seek_target;
use crate::buffer::medium::well_formed;
use crate::buffer::medium::Medium;
use crate::buffer::outcome::seek_outcome;
use crate::buffer::BufferError;
use crate::buffer::SeekOrigin;

verus! {

/// Moves the cursor of `medium` and reports a refusal as the offset that was
/// asked for.
pub(crate) fn seek_in<M: Medium>(medium: &mut M, position: i64, origin: SeekOrigin) -> (r: Result<
    u64,
    BufferError,
>)
    requires
        well_formed(old(medium)),
    ensures
        well_formed(final(medium)),
        akin(old(medium), final(medium)),
        final(medium).contents() == old(medium).contents(),
        ({
            let len = old(medium).contents().len() as int;
            let target = seek_target(old(medium).cursor(), len, position as int, origin);
            match r {
                Ok(at) => 0 <= target <= len && at == target && final(medium).cursor() == target,
                Err(BufferError::IndexOutOfRange { index }) => {
                    &&& index == position
                    &&& old(medium).reliable() ==> {
                        &&& !(0 <= target <= len)
                        &&& final(medium).cursor() == old(medium).cursor()
                    }
                },
                Err(_) => false,
            }
        }),
{
    seek_outcome(medium.seek(position, origin), position)
}

/// The offset of the cursor of `medium`, which stays where it is.
pub(crate) fn position_in<M: Medium>(medium: &mut M) -> (r: Result<u64, BufferError>)
    requires
        well_formed(old(medium)),
    ensures
        well_formed(final(medium)),
        akin(old(medium), final(medium)),
        final(medium).contents() == old(medium).contents(),
        match r {
            Ok(at) => at == old(medium).cursor() && final(medium).cursor() == old(medium).cursor(),
            Err(BufferError::IndexOutOfRange { index }) => index == 0 && !old(medium).reliable(),
            Err(_) => false,
        },
{
    seek_in(medium, 0, SeekOrigin::Current)
}

/// The length of `medium`, found by a seek to its end and back.
pub(crate) fn len_in<M: Medium>(medium: &mut M) -> (r: Result<u64, BufferError>)
    requires
        well_formed(old(medium)),
    ensures
        well_formed(final(medium)),
        akin(old(medium), final(medium)),
        final(medium).contents() == old(medium).contents(),
        match r {
            Ok(len) => len == old(medium).contents().len() && final(medium).cursor() == old(
                medium,
            ).cursor(),
            Err(BufferError::IndexOutOfRange { index }) => {
                &&& index == 0 || index == old(medium).cursor()
                &&& !old(medium).reliable()
            },
            Err(_) => false,
        },
{
    let before = match position_in(medium) {
        Ok(at) => at,
        Err(e) => return Err(e),
    };
    let len = match seek_in(medium, 0, SeekOrigin::End) {
        Ok(at) => at,
        Err(e) => return Err(e),
    };
    if before != len {
        match seek_in(medium, before as i64, SeekOrigin::Begin) {
            Ok(_) => {},
            Err(e) => return Err(e),
        }
    }
    Ok(len)
}

} // verus!
