//! The decoding half of the codec.
use vstd::prelude::*;
use vstd::utf8::encode_utf8;
use vstd::utf8::encode_utf8_decode_utf8;
use vstd::utf8::valid_utf8;
use crate::buffer::layout::i32_of_pattern;
use crate::buffer::layout::le_value;
use crate::buffer::layout::lemma_group_merge;
use crate::buffer::layout::lemma_group_shifts;
use crate::buffer::layout::lemma_group_weights;
use crate::buffer::layout::lemma_i32_of_pattern;
use crate::buffer::layout::lemma_low_bits;
use crate::buffer::layout::lemma_scan_bounds;
use crate::buffer::layout::lemma_scan_behind_step;
use crate::buffer::layout::lemma_u16_assembly;
use crate::buffer::layout::lemma_u32_assembly;
use crate::buffer::layout::lemma_u64_assembly;
use crate::buffer::layout::group_weight;
use crate::buffer::layout::scan_behind;
use crate::buffer::layout::scan_groups;
use crate::buffer::layout::scan_string;
use crate::buffer::layout::scan_varint;
use crate::buffer::layout::Scan;
use crate::buffer::layout::MAX_VARINT_BYTES;
use crate::buffer::medium::akin;
use crate::buffer::medium::same_state;
use crate::buffer::medium::seek_target;
use crate::buffer::medium::well_formed;
use crate::buffer::medium::Medium;
use crate::buffer::outcome::read_outcome;
use crate::buffer::seeking::len_in;
use crate::buffer::seeking::position_in;
use crate::buffer::seeking::seek_in;
use crate::buffer::BufferError;
use crate::buffer::SeekOrigin;

verus! {

/// The text that `bytes` hold in UTF-8, or `None` where they are no UTF-8.
///
/// Calls `String::from_utf8`, which checks the bytes and, where they are
/// valid UTF-8, makes them the bytes of the text without changing them.
#[verifier::external_body]
fn text_from_utf8(bytes: Vec<u8>) -> (made: Option<String>)
    ensures
        made is Some <==> valid_utf8(bytes@),
        made matches Some(text) ==> encode_utf8(text@) == bytes@,
{
    String::from_utf8(bytes).ok()
}

/// Decodes primitive values from a medium at its cursor, after a check that
/// the bytes are there.
pub struct BufferReader<R: Medium> {
    pub reader: R,
}

impl<R: Medium> BufferReader<R> {
    /// The invariant of the medium underneath.
    pub open spec fn inv(&self) -> bool {
        well_formed(&self.reader)
    }

    /// The bytes of the stream.
    pub open spec fn contents(&self) -> Seq<u8> {
        self.reader.contents()
    }

    /// The offset at which the next read takes place.
    pub open spec fn cursor(&self) -> int {
        self.reader.cursor()
    }

    /// The bytes from the cursor to the end of the stream.
    pub open spec fn remaining(&self) -> Seq<u8> {
        self.reader.contents().subrange(self.reader.cursor(), self.reader.contents().len() as int)
    }

    /// Whether the medium fails only what its contents forbid.
    pub open spec fn reliable(&self) -> bool {
        self.reader.reliable()
    }

    /// Whether `other` is this reader at another moment.
    pub open spec fn akin(&self, other: &Self) -> bool {
        akin(&self.reader, &other.reader)
    }

    /// Whether `other` holds the same bytes with its cursor at the same
    /// offset.
    pub open spec fn same_state(&self, other: &Self) -> bool {
        same_state(&self.reader, &other.reader)
    }

    /// A reader that owns `reader` and reads at its cursor.
    pub fn new(reader: R) -> (made: Self)
        ensures
            made.reader == reader,
    {
        BufferReader { reader }
    }

    /// The offset of the cursor.
    pub fn position(&mut self) -> (r: Result<u64, BufferError>)
        requires
            old(self).inv(),
        ensures
            final(self).inv(),
            old(self).akin(final(self)),
            final(self).contents() == old(self).contents(),
            match r {
                Ok(at) => at == old(self).cursor() && final(self).cursor() == old(self).cursor(),
                Err(BufferError::IndexOutOfRange { index }) => index == 0 && !old(self).reliable(),
                Err(_) => false,
            },
            old(self).reliable() ==> r is Ok,
    {
        position_in(&mut self.reader)
    }

    /// The length of the stream in bytes. The cursor ends where it was.
    pub fn len(&mut self) -> (r: Result<u64, BufferError>)
        requires
            old(self).inv(),
        ensures
            final(self).inv(),
            old(self).akin(final(self)),
            final(self).contents() == old(self).contents(),
            match r {
                Ok(len) => len == old(self).contents().len() && final(self).cursor() == old(
                    self,
                ).cursor(),
                Err(BufferError::IndexOutOfRange { index }) => {
                    &&& index == 0 || index == old(self).cursor()
                    &&& !old(self).reliable()
                },
                Err(_) => false,
            },
            old(self).reliable() ==> r is Ok,
    {
        len_in(&mut self.reader)
    }

    /// Moves the cursor by `position` from `origin` and returns its new
    /// offset. An offset outside the stream is refused with the cursor left
    /// where it was.
    pub fn seek(&mut self, position: i64, origin: SeekOrigin) -> (r: Result<u64, BufferError>)
        requires
            old(self).inv(),
        ensures
            final(self).inv(),
            old(self).akin(final(self)),
            final(self).contents() == old(self).contents(),
            ({
                let len = old(self).contents().len() as int;
                let target = seek_target(old(self).cursor(), len, position as int, origin);
                match r {
                    Ok(at) => 0 <= target <= len && at == target && final(self).cursor() == target,
                    Err(BufferError::IndexOutOfRange { index }) => {
                        &&& index == position
                        &&& old(self).reliable() ==> {
                            &&& !(0 <= target <= len)
                            &&& final(self).cursor() == old(self).cursor()
                        }
                    },
                    Err(_) => false,
                }
            }),
    {
        seek_in(&mut self.reader, position, origin)
    }

    /// Reads `count` bytes at the cursor and moves the cursor past them.
    /// Where fewer than `count` bytes remain, nothing is consumed.
    pub fn read_bytes(&mut self, count: u64) -> (r: Result<Vec<u8>, BufferError>)
        requires
            old(self).inv(),
        ensures
            final(self).inv(),
            old(self).akin(final(self)),
            final(self).contents() == old(self).contents(),
            match r {
                Ok(bytes) => {
                    &&& old(self).cursor() + count <= old(self).contents().len()
                    &&& bytes@ == old(self).contents().subrange(
                        old(self).cursor(),
                        old(self).cursor() + count,
                    )
                    &&& final(self).cursor() == old(self).cursor() + count
                },
                Err(BufferError::EndOfStream) => {
                    &&& old(self).cursor() + count > old(self).contents().len()
                    &&& final(self).cursor() == old(self).cursor()
                },
                Err(BufferError::IndexOutOfRange { index }) => {
                    &&& index == 0 || index == old(self).cursor()
                    &&& !old(self).reliable()
                },
                Err(BufferError::ReadFailure { .. }) => {
                    &&& old(self).cursor() + count <= old(self).contents().len()
                    &&& !old(self).reliable()
                },
                Err(BufferError::IOFailure) => false,
            },
            old(self).reliable() ==> (r is Ok <==> old(self).cursor() + count <= old(
                self,
            ).contents().len()),
            old(self).reliable() && old(self).cursor() + count > old(self).contents().len() ==> {
                &&& r matches Err(BufferError::EndOfStream)
                &&& old(self).same_state(final(self))
            },
    {
        let at = match position_in(&mut self.reader) {
            Ok(at) => at,
            Err(e) => return Err(e),
        };
        let len = match len_in(&mut self.reader) {
            Ok(len) => len,
            Err(e) => return Err(e),
        };
        if count > len - at {
            return Err(BufferError::EndOfStream);
        }
        read_outcome(self.reader.read_exact(count))
    }

    /// Reads `count` bytes at `offset` and puts the cursor back where it
    /// was. Only where the medium refuses a seek may the cursor end
    /// elsewhere.
    pub fn read_bytes_at(&mut self, offset: u64, count: u64) -> (r: Result<Vec<u8>, BufferError>)
        requires
            old(self).inv(),
        ensures
            final(self).inv(),
            old(self).akin(final(self)),
            final(self).contents() == old(self).contents(),
            match r {
                Ok(bytes) => {
                    &&& offset + count <= old(self).contents().len()
                    &&& bytes@ == old(self).contents().subrange(offset as int, offset + count)
                    &&& final(self).cursor() == old(self).cursor()
                },
                Err(BufferError::EndOfStream) => {
                    &&& offset + count > old(self).contents().len()
                    &&& final(self).cursor() == old(self).cursor()
                },
                Err(BufferError::IndexOutOfRange { index }) => {
                    &&& index == 0 || index == old(self).cursor() || index == offset
                    &&& !old(self).reliable()
                },
                Err(BufferError::ReadFailure { .. }) => {
                    &&& offset + count <= old(self).contents().len()
                    &&& final(self).cursor() == old(self).cursor()
                    &&& !old(self).reliable()
                },
                Err(BufferError::IOFailure) => false,
            },
            old(self).reliable() ==> (r is Ok <==> offset + count <= old(self).contents().len()),
            old(self).reliable() ==> old(self).same_state(final(self)),
    {
        let len = match len_in(&mut self.reader) {
            Ok(len) => len,
            Err(e) => return Err(e),
        };
        if offset > len || count > len - offset {
            return Err(BufferError::EndOfStream);
        }
        let before = match position_in(&mut self.reader) {
            Ok(at) => at,
            Err(e) => return Err(e),
        };
        match seek_in(&mut self.reader, offset as i64, SeekOrigin::Begin) {
            Ok(_) => {},
            Err(e) => return Err(e),
        }
        let answer = self.reader.read_exact(count);
        match seek_in(&mut self.reader, before as i64, SeekOrigin::Begin) {
            Ok(_) => {},
            Err(e) => return Err(e),
        }
        read_outcome(answer)
    }

    /// Reads four bytes, least significant first, as an unsigned number.
    pub fn read_u32(&mut self) -> (r: Result<u32, BufferError>)
        requires
            old(self).inv(),
        ensures
            final(self).inv(),
            old(self).akin(final(self)),
            final(self).contents() == old(self).contents(),
            match r {
                Ok(value) => {
                    &&& old(self).cursor() + 4 <= old(self).contents().len()
                    &&& value == le_value(old(self).contents().subrange(
                        old(self).cursor(),
                        old(self).cursor() + 4,
                    ))
                    &&& final(self).cursor() == old(self).cursor() + 4
                },
                Err(BufferError::EndOfStream) => {
                    &&& old(self).cursor() + 4 > old(self).contents().len()
                    &&& final(self).cursor() == old(self).cursor()
                },
                Err(BufferError::IndexOutOfRange { index }) => {
                    &&& index == 0 || index == old(self).cursor()
                    &&& !old(self).reliable()
                },
                Err(BufferError::ReadFailure { .. }) => {
                    &&& old(self).cursor() + 4 <= old(self).contents().len()
                    &&& !old(self).reliable()
                },
                Err(BufferError::IOFailure) => false,
            },
            old(self).reliable() ==> (r is Ok <==> old(self).cursor() + 4 <= old(
                self,
            ).contents().len()),
            old(self).reliable() && old(self).cursor() + 4 > old(self).contents().len() ==> {
                &&& r matches Err(BufferError::EndOfStream)
                &&& old(self).same_state(final(self))
            },
    {
        let bytes = match self.read_bytes(4) {
            Ok(bytes) => bytes,
            Err(e) => return Err(e),
        };
        proof {
            lemma_u32_assembly(bytes@);
        }
        let value: u32 = (bytes[0] as u32) | ((bytes[1] as u32) << 8) | ((bytes[2] as u32) << 16)
            | ((bytes[3] as u32) << 24);
        Ok(value)
    }

    /// Reads eight bytes, least significant first, as an unsigned number. The
    /// number is put together from its two halves of 32 bits.
    pub fn read_u64(&mut self) -> (r: Result<u64, BufferError>)
        requires
            old(self).inv(),
        ensures
            final(self).inv(),
            old(self).akin(final(self)),
            final(self).contents() == old(self).contents(),
            match r {
                Ok(value) => {
                    &&& old(self).cursor() + 8 <= old(self).contents().len()
                    &&& value == le_value(old(self).contents().subrange(
                        old(self).cursor(),
                        old(self).cursor() + 8,
                    ))
                    &&& final(self).cursor() == old(self).cursor() + 8
                },
                Err(BufferError::EndOfStream) => {
                    &&& old(self).cursor() + 8 > old(self).contents().len()
                    &&& final(self).cursor() == old(self).cursor()
                },
                Err(BufferError::IndexOutOfRange { index }) => {
                    &&& index == 0 || index == old(self).cursor()
                    &&& !old(self).reliable()
                },
                Err(BufferError::ReadFailure { .. }) => {
                    &&& old(self).cursor() + 8 <= old(self).contents().len()
                    &&& !old(self).reliable()
                },
                Err(BufferError::IOFailure) => false,
            },
            old(self).reliable() ==> (r is Ok <==> old(self).cursor() + 8 <= old(
                self,
            ).contents().len()),
            old(self).reliable() && old(self).cursor() + 8 > old(self).contents().len() ==> {
                &&& r matches Err(BufferError::EndOfStream)
                &&& old(self).same_state(final(self))
            },
    {
        let bytes = match self.read_bytes(8) {
            Ok(bytes) => bytes,
            Err(e) => return Err(e),
        };
        proof {
            lemma_u32_assembly(bytes@.subrange(0, 4));
            lemma_u32_assembly(bytes@.subrange(4, 8));
        }
        let low: u32 = (bytes[0] as u32) | ((bytes[1] as u32) << 8) | ((bytes[2] as u32) << 16)
            | ((bytes[3] as u32) << 24);
        let high: u32 = (bytes[4] as u32) | ((bytes[5] as u32) << 8) | ((bytes[6] as u32) << 16)
            | ((bytes[7] as u32) << 24);
        proof {
            lemma_u64_assembly(bytes@, low, high);
        }
        Ok(((high as u64) << 32) | (low as u64))
    }

    /// Reads four bytes, least significant first, as a signed number in two's
    /// complement.
    pub fn read_i32(&mut self) -> (r: Result<i32, BufferError>)
        requires
            old(self).inv(),
        ensures
            final(self).inv(),
            old(self).akin(final(self)),
            final(self).contents() == old(self).contents(),
            match r {
                Ok(value) => {
                    &&& old(self).cursor() + 4 <= old(self).contents().len()
                    &&& value == i32_of_pattern(le_value(old(self).contents().subrange(
                        old(self).cursor(),
                        old(self).cursor() + 4,
                    )))
                    &&& final(self).cursor() == old(self).cursor() + 4
                },
                Err(BufferError::EndOfStream) => {
                    &&& old(self).cursor() + 4 > old(self).contents().len()
                    &&& final(self).cursor() == old(self).cursor()
                },
                Err(BufferError::IndexOutOfRange { index }) => {
                    &&& index == 0 || index == old(self).cursor()
                    &&& !old(self).reliable()
                },
                Err(BufferError::ReadFailure { .. }) => {
                    &&& old(self).cursor() + 4 <= old(self).contents().len()
                    &&& !old(self).reliable()
                },
                Err(BufferError::IOFailure) => false,
            },
            old(self).reliable() ==> (r is Ok <==> old(self).cursor() + 4 <= old(
                self,
            ).contents().len()),
            old(self).reliable() && old(self).cursor() + 4 > old(self).contents().len() ==> {
                &&& r matches Err(BufferError::EndOfStream)
                &&& old(self).same_state(final(self))
            },
    {
        let bytes = match self.read_bytes(4) {
            Ok(bytes) => bytes,
            Err(e) => return Err(e),
        };
        proof {
            lemma_u32_assembly(bytes@);
        }
        let bits: u32 = (bytes[0] as u32) | ((bytes[1] as u32) << 8) | ((bytes[2] as u32) << 16)
            | ((bytes[3] as u32) << 24);
        proof {
            lemma_i32_of_pattern(bits);
        }
        Ok(#[verifier::truncate] (bits as i32))
    }

    /// Reads two bytes, least significant first, as an unsigned number.
    pub fn read_u16(&mut self) -> (r: Result<u16, BufferError>)
        requires
            old(self).inv(),
        ensures
            final(self).inv(),
            old(self).akin(final(self)),
            final(self).contents() == old(self).contents(),
            match r {
                Ok(value) => {
                    &&& old(self).cursor() + 2 <= old(self).contents().len()
                    &&& value == le_value(old(self).contents().subrange(
                        old(self).cursor(),
                        old(self).cursor() + 2,
                    ))
                    &&& final(self).cursor() == old(self).cursor() + 2
                },
                Err(BufferError::EndOfStream) => {
                    &&& old(self).cursor() + 2 > old(self).contents().len()
                    &&& final(self).cursor() == old(self).cursor()
                },
                Err(BufferError::IndexOutOfRange { index }) => {
                    &&& index == 0 || index == old(self).cursor()
                    &&& !old(self).reliable()
                },
                Err(BufferError::ReadFailure { .. }) => {
                    &&& old(self).cursor() + 2 <= old(self).contents().len()
                    &&& !old(self).reliable()
                },
                Err(BufferError::IOFailure) => false,
            },
            old(self).reliable() ==> (r is Ok <==> old(self).cursor() + 2 <= old(
                self,
            ).contents().len()),
            old(self).reliable() && old(self).cursor() + 2 > old(self).contents().len() ==> {
                &&& r matches Err(BufferError::EndOfStream)
                &&& old(self).same_state(final(self))
            },
    {
        let bytes = match self.read_bytes(2) {
            Ok(bytes) => bytes,
            Err(e) => return Err(e),
        };
        proof {
            lemma_u16_assembly(bytes@);
        }
        let value: u16 = (bytes[0] as u16) | ((bytes[1] as u16) << 8);
        Ok(value)
    }

    /// Reads the byte at the cursor.
    pub fn read_u8(&mut self) -> (r: Result<u8, BufferError>)
        requires
            old(self).inv(),
        ensures
            final(self).inv(),
            old(self).akin(final(self)),
            final(self).contents() == old(self).contents(),
            match r {
                Ok(value) => {
                    &&& old(self).cursor() + 1 <= old(self).contents().len()
                    &&& value == old(self).contents()[old(self).cursor()]
                    &&& final(self).cursor() == old(self).cursor() + 1
                },
                Err(BufferError::EndOfStream) => {
                    &&& old(self).cursor() + 1 > old(self).contents().len()
                    &&& final(self).cursor() == old(self).cursor()
                },
                Err(BufferError::IndexOutOfRange { index }) => {
                    &&& index == 0 || index == old(self).cursor()
                    &&& !old(self).reliable()
                },
                Err(BufferError::ReadFailure { .. }) => {
                    &&& old(self).cursor() + 1 <= old(self).contents().len()
                    &&& !old(self).reliable()
                },
                Err(BufferError::IOFailure) => false,
            },
            old(self).reliable() ==> (r is Ok <==> old(self).cursor() + 1 <= old(
                self,
            ).contents().len()),
            old(self).reliable() && old(self).cursor() + 1 > old(self).contents().len() ==> {
                &&& r matches Err(BufferError::EndOfStream)
                &&& old(self).same_state(final(self))
            },
    {
        let bytes = match self.read_bytes(1) {
            Ok(bytes) => bytes,
            Err(e) => return Err(e),
        };
        Ok(bytes[0])
    }

    /// Reads a variable-length integer: groups of seven bits, the least
    /// significant first, up to the first byte whose high bit is clear. Every
    /// byte that is read is consumed, also where the stream ends within the
    /// number or the number goes on after five bytes.
    pub fn read_7bit_int(&mut self) -> (r: Result<i32, BufferError>)
        requires
            old(self).inv(),
        ensures
            final(self).inv(),
            old(self).akin(final(self)),
            final(self).contents() == old(self).contents(),
            match r {
                Ok(value) => (scan_varint(old(self).remaining()) matches Scan::Found {
                    value: found,
                    used,
                } && value == found && final(self).cursor() == old(self).cursor() + used),
                Err(BufferError::EndOfStream) => (scan_varint(
                    old(self).remaining(),
                ) matches Scan::Short { used } && final(self).cursor() == old(self).cursor()
                    + used),
                Err(BufferError::IOFailure) => (scan_varint(
                    old(self).remaining(),
                ) matches Scan::Malformed { used } && final(self).cursor() == old(self).cursor()
                    + used),
                Err(BufferError::IndexOutOfRange { index }) => {
                    &&& index == 0 || old(self).cursor() <= index < old(self).cursor()
                        + MAX_VARINT_BYTES
                    &&& !old(self).reliable()
                },
                Err(BufferError::ReadFailure { .. }) => !old(self).reliable(),
            },
            old(self).reliable() ==> (r is Ok <==> scan_varint(old(self).remaining()) is Found),
    {
        let ghost start = self.cursor();
        let ghost bytes = self.remaining();
        let mut groups: u64 = 0;
        let mut shift: u32 = 0;
        let ghost mut count: nat = 0;
        proof {
            lemma_group_weights();
            assert(bytes.skip(0) =~= bytes);
        }
        loop
            invariant
                self.inv(),
                old(self).inv(),
                old(self).akin(self),
                self.contents() == old(self).contents(),
                start == old(self).cursor(),
                bytes == old(self).remaining(),
                count <= MAX_VARINT_BYTES,
                shift == 7 * count,
                self.cursor() == start + count,
                groups < group_weight(count),
                scan_groups(bytes, MAX_VARINT_BYTES as nat) == scan_behind(
                    scan_groups(bytes.skip(count as int), (MAX_VARINT_BYTES - count) as nat),
                    groups as nat,
                    count,
                ),
            decreases MAX_VARINT_BYTES - count,
        {
            if shift == 35 {
                return Err(BufferError::IOFailure);
            }
            let byte = match self.read_u8() {
                Ok(byte) => byte,
                Err(e) => {
                    return Err(e);
                },
            };
            proof {
                lemma_group_weights();
                lemma_group_shifts();
                lemma_group_merge(groups, byte, shift);
                assert(bytes[count as int] == byte);
                if byte >= 128 {
                    lemma_scan_behind_step(
                        bytes,
                        groups as nat,
                        count,
                        (MAX_VARINT_BYTES - count) as nat,
                    );
                } else {
                    assert(bytes.skip(count as int)[0] == byte);
                }
            }
            groups = groups | (((byte & 0x7f) as u64) << shift);
            shift = shift + 7;
            if byte & 0x80 == 0 {
                proof {
                    lemma_low_bits(groups);
                }
                let low: u32 = (groups & 0xffff_ffff) as u32;
                return Ok(#[verifier::truncate] (low as i32));
            }
            proof {
                count = count + 1;
            }
        }
    }

    /// Reads a text: its byte length as a variable-length integer, then that
    /// many bytes of UTF-8. A negative length and bytes that are no UTF-8 are
    /// refused as malformed. Where the stream ends before the text does, only
    /// the length is consumed.
    pub fn read_string(&mut self) -> (r: Result<String, BufferError>)
        requires
            old(self).inv(),
        ensures
            final(self).inv(),
            old(self).akin(final(self)),
            final(self).contents() == old(self).contents(),
            match r {
                Ok(text) => (scan_string(old(self).remaining()) matches Scan::Found {
                    value: found,
                    used,
                } && text@ == found && final(self).cursor() == old(self).cursor() + used),
                Err(BufferError::EndOfStream) => (scan_string(
                    old(self).remaining(),
                ) matches Scan::Short { used } && final(self).cursor() == old(self).cursor()
                    + used),
                Err(BufferError::IOFailure) => (scan_string(
                    old(self).remaining(),
                ) matches Scan::Malformed { used } && final(self).cursor() == old(self).cursor()
                    + used),
                Err(BufferError::IndexOutOfRange { index }) => {
                    &&& index == 0 || old(self).cursor() <= index <= old(self).cursor()
                        + MAX_VARINT_BYTES
                    &&& !old(self).reliable()
                },
                Err(BufferError::ReadFailure { .. }) => !old(self).reliable(),
            },
            old(self).reliable() ==> (r is Ok <==> scan_string(old(self).remaining()) is Found),
    {
        let ghost bytes = self.remaining();
        let length = match self.read_7bit_int() {
            Ok(length) => length,
            Err(e) => return Err(e),
        };
        let ghost used = scan_varint(bytes)->Found_used;
        proof {
            lemma_scan_bounds(bytes, MAX_VARINT_BYTES as nat);
        }
        if length < 0 {
            return Err(BufferError::IOFailure);
        }
        if length == 0 {
            proof {
                assert(bytes.subrange(used as int, used as int) =~= Seq::<u8>::empty());
                encode_utf8_decode_utf8(Seq::<char>::empty());
                assert(encode_utf8(Seq::<char>::empty()) =~= Seq::<u8>::empty());
            }
            return Ok(String::new());
        }
        let payload = match self.read_bytes(length as u64) {
            Ok(payload) => payload,
            Err(e) => return Err(e),
        };
        proof {
            assert(payload@ =~= bytes.subrange(used as int, used + length));
        }
        match text_from_utf8(payload) {
            Some(text) => {
                proof {
                    encode_utf8_decode_utf8(text@);
                }
                Ok(text)
            },
            None => Err(BufferError::IOFailure),
        }
    }
}

} // verus!
