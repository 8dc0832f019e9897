//! The encoding half of the codec.
use vstd::prelude::*;
use vstd::string::StringSliceAdditionalSpecFns;
use vstd::utf8::encode_utf8;
use crate::buffer::layout::i32_pattern;
use crate::buffer::layout::le_bytes;
use crate::buffer::layout::lemma_i32_pattern;
use crate::buffer::layout::lemma_u16_bytes;
use crate::buffer::layout::lemma_u32_bytes;
use crate::buffer::layout::lemma_u64_bytes;
use crate::buffer::layout::lemma_varint_len;
use crate::buffer::layout::lemma_varint_step;
use crate::buffer::layout::string_bytes;
use crate::buffer::layout::varint_bytes;
use crate::buffer::medium::lemma_overwrite_twice;
use crate::buffer::medium::akin;
use crate::buffer::medium::overwrite;
use crate::buffer::medium::same_state;
use crate::buffer::medium::seek_target;
use crate::buffer::medium::well_formed;
use crate::buffer::medium::Medium;
use crate::buffer::outcome::read_outcome;
use crate::buffer::outcome::write_outcome;
use crate::buffer::seeking::len_in;
use crate::buffer::seeking::position_in;
use crate::buffer::seeking::seek_in;
use crate::buffer::BufferError;
use crate::buffer::SeekOrigin;

verus! {

/// Encodes primitive values into a medium at its cursor.
pub struct BufferWriter<W: Medium> {
    pub writer: W,
}

impl<W: Medium> BufferWriter<W> {
    /// The invariant of the medium underneath.
    pub open spec fn inv(&self) -> bool {
        well_formed(&self.writer)
    }

    /// The bytes written so far, with what the medium held before.
    pub open spec fn contents(&self) -> Seq<u8> {
        self.writer.contents()
    }

    /// The offset at which the next write takes place.
    pub open spec fn cursor(&self) -> int {
        self.writer.cursor()
    }

    /// The greatest length that the medium may grow to.
    pub open spec fn limit(&self) -> int {
        self.writer.limit()
    }

    /// Whether the medium fails only what its contents and limit forbid.
    pub open spec fn reliable(&self) -> bool {
        self.writer.reliable()
    }

    /// Whether `other` is this writer at another moment.
    pub open spec fn akin(&self, other: &Self) -> bool {
        akin(&self.writer, &other.writer)
    }

    /// Whether `other` holds the same bytes with its cursor at the same
    /// offset.
    pub open spec fn same_state(&self, other: &Self) -> bool {
        same_state(&self.writer, &other.writer)
    }

    /// A writer that owns `writer` and writes at its cursor.
    pub fn new(writer: W) -> (made: Self)
        ensures
            made.writer == writer,
    {
        BufferWriter { writer }
    }

    /// The offset of the cursor.
    pub fn position(&mut self) -> (r: Result<u64, BufferError>)
        requires
            old(self).inv(),
        ensures
            final(self).inv(),
            old(self).akin(final(self)),
            final(self).contents() == old(self).contents(),
            match r {
                Ok(at) => at == old(self).cursor() && final(self).cursor() == old(self).cursor(),
                Err(BufferError::IndexOutOfRange { index }) => index == 0 && !old(self).reliable(),
                Err(_) => false,
            },
            old(self).reliable() ==> r is Ok,
    {
        position_in(&mut self.writer)
    }

    /// The length of the stream in bytes. The cursor ends where it was.
    pub fn len(&mut self) -> (r: Result<u64, BufferError>)
        requires
            old(self).inv(),
        ensures
            final(self).inv(),
            old(self).akin(final(self)),
            final(self).contents() == old(self).contents(),
            match r {
                Ok(len) => len == old(self).contents().len() && final(self).cursor() == old(
                    self,
                ).cursor(),
                Err(BufferError::IndexOutOfRange { index }) => {
                    &&& index == 0 || index == old(self).cursor()
                    &&& !old(self).reliable()
                },
                Err(_) => false,
            },
            old(self).reliable() ==> r is Ok,
    {
        len_in(&mut self.writer)
    }

    /// Moves the cursor by `position` from `origin` and returns its new
    /// offset. An offset outside the stream is refused with the cursor left
    /// where it was.
    pub fn seek(&mut self, position: i64, origin: SeekOrigin) -> (r: Result<u64, BufferError>)
        requires
            old(self).inv(),
        ensures
            final(self).inv(),
            old(self).akin(final(self)),
            final(self).contents() == old(self).contents(),
            ({
                let len = old(self).contents().len() as int;
                let target = seek_target(old(self).cursor(), len, position as int, origin);
                match r {
                    Ok(at) => 0 <= target <= len && at == target && final(self).cursor() == target,
                    Err(BufferError::IndexOutOfRange { index }) => {
                        &&& index == position
                        &&& old(self).reliable() ==> {
                            &&& !(0 <= target <= len)
                            &&& final(self).cursor() == old(self).cursor()
                        }
                    },
                    Err(_) => false,
                }
            }),
    {
        seek_in(&mut self.writer, position, origin)
    }

    /// Writes `data` at the cursor and reports a failure of the medium as
    /// `IOFailure`.
    fn put(&mut self, data: &[u8]) -> (r: Result<u64, BufferError>)
        requires
            old(self).inv(),
        ensures
            final(self).inv(),
            old(self).akin(final(self)),
            match r {
                Ok(count) => {
                    &&& count == data@.len()
                    &&& old(self).cursor() + data@.len() <= old(self).limit()
                    &&& final(self).contents() == overwrite(
                        old(self).contents(),
                        old(self).cursor(),
                        data@,
                    )
                    &&& final(self).cursor() == old(self).cursor() + data@.len()
                },
                Err(BufferError::IOFailure) => old(self).reliable() ==> {
                    &&& old(self).cursor() + data@.len() > old(self).limit()
                    &&& old(self).same_state(final(self))
                },
                Err(_) => false,
            },
    {
        write_outcome(self.writer.write(data))
    }

    /// Writes `value` verbatim, with no length before it, and returns the
    /// number of bytes written.
    pub fn write_bytes(&mut self, value: &Vec<u8>) -> (r: Result<u64, BufferError>)
        requires
            old(self).inv(),
        ensures
            final(self).inv(),
            old(self).akin(final(self)),
            match r {
                Ok(count) => {
                    &&& count == value@.len()
                    &&& old(self).cursor() + value@.len() <= old(self).limit()
                    &&& final(self).contents() == overwrite(
                        old(self).contents(),
                        old(self).cursor(),
                        value@,
                    )
                    &&& final(self).cursor() == old(self).cursor() + value@.len()
                },
                Err(BufferError::IOFailure) => old(self).reliable() ==> {
                    &&& old(self).cursor() + value@.len() > old(self).limit()
                    &&& old(self).same_state(final(self))
                },
                Err(_) => false,
            },
            old(self).reliable() ==> (r is Ok <==> old(self).cursor() + value@.len() <= old(
                self,
            ).limit()),
    {
        self.put(value.as_slice())
    }

    /// Writes `value` as 4 bytes, least significant first, and returns the number
    /// of bytes written.
    pub fn write_u32(&mut self, value: u32) -> (r: Result<u64, BufferError>)
        requires
            old(self).inv(),
        ensures
            final(self).inv(),
            old(self).akin(final(self)),
            match r {
                Ok(count) => {
                    &&& count == 4
                    &&& old(self).cursor() + 4 <= old(self).limit()
                    &&& final(self).contents() == overwrite(
                        old(self).contents(),
                        old(self).cursor(),
                        le_bytes(value as nat, 4),
                    )
                    &&& final(self).cursor() == old(self).cursor() + 4
                },
                Err(BufferError::IOFailure) => old(self).reliable() ==> {
                    &&& old(self).cursor() + 4 > old(self).limit()
                    &&& old(self).same_state(final(self))
                },
                Err(_) => false,
            },
            old(self).reliable() ==> (r is Ok <==> old(self).cursor() + 4 <= old(self).limit()),
    {
        let data: Vec<u8> = vec![
            (value & 0xff) as u8,
            ((value >> 8) & 0xff) as u8,
            ((value >> 16) & 0xff) as u8,
            ((value >> 24) & 0xff) as u8,
        ];
        proof {
            lemma_u32_bytes(value);
        }
        self.put(data.as_slice())
    }

    /// Writes `value` as 8 bytes, least significant first, and returns the number
    /// of bytes written.
    pub fn write_u64(&mut self, value: u64) -> (r: Result<u64, BufferError>)
        requires
            old(self).inv(),
        ensures
            final(self).inv(),
            old(self).akin(final(self)),
            match r {
                Ok(count) => {
                    &&& count == 8
                    &&& old(self).cursor() + 8 <= old(self).limit()
                    &&& final(self).contents() == overwrite(
                        old(self).contents(),
                        old(self).cursor(),
                        le_bytes(value as nat, 8),
                    )
                    &&& final(self).cursor() == old(self).cursor() + 8
                },
                Err(BufferError::IOFailure) => old(self).reliable() ==> {
                    &&& old(self).cursor() + 8 > old(self).limit()
                    &&& old(self).same_state(final(self))
                },
                Err(_) => false,
            },
            old(self).reliable() ==> (r is Ok <==> old(self).cursor() + 8 <= old(self).limit()),
    {
        let data: Vec<u8> = vec![
            (value & 0xff) as u8,
            ((value >> 8) & 0xff) as u8,
            ((value >> 16) & 0xff) as u8,
            ((value >> 24) & 0xff) as u8,
            ((value >> 32) & 0xff) as u8,
            ((value >> 40) & 0xff) as u8,
            ((value >> 48) & 0xff) as u8,
            ((value >> 56) & 0xff) as u8,
        ];
        proof {
            lemma_u64_bytes(value);
        }
        self.put(data.as_slice())
    }

    /// Writes `value` as 4 bytes, least significant first, and returns the number
    /// of bytes written.
    pub fn write_i32(&mut self, value: i32) -> (r: Result<u64, BufferError>)
        requires
            old(self).inv(),
        ensures
            final(self).inv(),
            old(self).akin(final(self)),
            match r {
                Ok(count) => {
                    &&& count == 4
                    &&& old(self).cursor() + 4 <= old(self).limit()
                    &&& final(self).contents() == overwrite(
                        old(self).contents(),
                        old(self).cursor(),
                        le_bytes(i32_pattern(value), 4),
                    )
                    &&& final(self).cursor() == old(self).cursor() + 4
                },
                Err(BufferError::IOFailure) => old(self).reliable() ==> {
                    &&& old(self).cursor() + 4 > old(self).limit()
                    &&& old(self).same_state(final(self))
                },
                Err(_) => false,
            },
            old(self).reliable() ==> (r is Ok <==> old(self).cursor() + 4 <= old(self).limit()),
    {
        let bits: u32 = #[verifier::truncate] (value as u32);
        let data: Vec<u8> = vec![
            (bits & 0xff) as u8,
            ((bits >> 8) & 0xff) as u8,
            ((bits >> 16) & 0xff) as u8,
            ((bits >> 24) & 0xff) as u8,
        ];
        proof {
            lemma_i32_pattern(value);
            lemma_u32_bytes(bits);
        }
        self.put(data.as_slice())
    }

    /// Writes `value` as 2 bytes, least significant first, and returns the number
    /// of bytes written.
    pub fn write_u16(&mut self, value: u16) -> (r: Result<u64, BufferError>)
        requires
            old(self).inv(),
        ensures
            final(self).inv(),
            old(self).akin(final(self)),
            match r {
                Ok(count) => {
                    &&& count == 2
                    &&& old(self).cursor() + 2 <= old(self).limit()
                    &&& final(self).contents() == overwrite(
                        old(self).contents(),
                        old(self).cursor(),
                        le_bytes(value as nat, 2),
                    )
                    &&& final(self).cursor() == old(self).cursor() + 2
                },
                Err(BufferError::IOFailure) => old(self).reliable() ==> {
                    &&& old(self).cursor() + 2 > old(self).limit()
                    &&& old(self).same_state(final(self))
                },
                Err(_) => false,
            },
            old(self).reliable() ==> (r is Ok <==> old(self).cursor() + 2 <= old(self).limit()),
    {
        let data: Vec<u8> = vec![(value & 0xff) as u8, ((value >> 8) & 0xff) as u8];
        proof {
            lemma_u16_bytes(value);
        }
        self.put(data.as_slice())
    }

    /// Writes `value` as 1 byte and returns the number
    /// of bytes written.
    pub fn write_u8(&mut self, value: u8) -> (r: Result<u64, BufferError>)
        requires
            old(self).inv(),
        ensures
            final(self).inv(),
            old(self).akin(final(self)),
            match r {
                Ok(count) => {
                    &&& count == 1
                    &&& old(self).cursor() + 1 <= old(self).limit()
                    &&& final(self).contents() == overwrite(
                        old(self).contents(),
                        old(self).cursor(),
                        seq![value],
                    )
                    &&& final(self).cursor() == old(self).cursor() + 1
                },
                Err(BufferError::IOFailure) => old(self).reliable() ==> {
                    &&& old(self).cursor() + 1 > old(self).limit()
                    &&& old(self).same_state(final(self))
                },
                Err(_) => false,
            },
            old(self).reliable() ==> (r is Ok <==> old(self).cursor() + 1 <= old(self).limit()),
    {
        let data: Vec<u8> = vec![value];
        self.put(data.as_slice())
    }

    /// Writes `value` in groups of seven bits, the least significant group
    /// first, each byte but the last with its high bit set. A negative value
    /// is written by its unsigned 32-bit pattern. Where a reliable medium has
    /// no room for all the bytes, those that fit are written.
    pub fn write_7bit_int(&mut self, value: i32) -> (r: Result<(), BufferError>)
        requires
            old(self).inv(),
        ensures
            final(self).inv(),
            old(self).akin(final(self)),
            ({
                let start = old(self).cursor();
                let encoding = varint_bytes(i32_pattern(value));
                match r {
                    Ok(_) => {
                        &&& start + encoding.len() <= old(self).limit()
                        &&& final(self).contents() == overwrite(
                            old(self).contents(),
                            start,
                            encoding,
                        )
                        &&& final(self).cursor() == start + encoding.len()
                    },
                    Err(BufferError::IOFailure) => old(self).reliable() ==> {
                        let room = old(self).limit() - start;
                        &&& room < encoding.len()
                        &&& final(self).contents() == overwrite(
                            old(self).contents(),
                            start,
                            encoding.take(room),
                        )
                        &&& final(self).cursor() == old(self).limit()
                    },
                    Err(_) => false,
                }
            }),
            old(self).reliable() ==> (r is Ok <==> old(self).cursor() + varint_bytes(
                i32_pattern(value),
            ).len() <= old(self).limit()),
    {
        let mut v: u32 = #[verifier::truncate] (value as u32);
        let ghost start = self.cursor();
        let ghost before = self.contents();
        let ghost encoding = varint_bytes(i32_pattern(value));
        let ghost mut done: Seq<u8> = Seq::empty();
        proof {
            lemma_i32_pattern(value);
            assert(done + varint_bytes(v as nat) =~= encoding);
            assert(overwrite(before, start, done) =~= before);
        }
        while v >= 0x80
            invariant
                self.inv(),
                old(self).akin(self),
                old(self).inv(),
                start == old(self).cursor(),
                before == old(self).contents(),
                encoding == varint_bytes(i32_pattern(value)),
                done + varint_bytes(v as nat) == encoding,
                self.contents() == overwrite(before, start, done),
                self.cursor() == start + done.len(),
            decreases v,
        {
            proof {
                lemma_varint_step(v);
            }
            let byte: u8 = ((v & 0x7f) | 0x80) as u8;
            match self.write_u8(byte) {
                Ok(_) => {},
                Err(e) => {
                    proof {
                        if old(self).reliable() {
                            lemma_varint_len(v);
                            assert(encoding.len() == done.len() + varint_bytes(v as nat).len());
                            assert(encoding.take(done.len() as int) =~= done);
                        }
                    }
                    return Err(e);
                },
            }
            proof {
                lemma_overwrite_twice(before, start, done, seq![byte]);
                assert((done + seq![byte]) + varint_bytes((v >> 7) as nat) =~= done + (seq![byte]
                    + varint_bytes((v >> 7) as nat)));
                done = done + seq![byte];
            }
            v = v >> 7;
        }
        let last: u8 = v as u8;
        match self.write_u8(last) {
            Ok(_) => {
                proof {
                    lemma_overwrite_twice(before, start, done, seq![last]);
                }
                Ok(())
            },
            Err(e) => {
                proof {
                    if old(self).reliable() {
                        lemma_varint_len(v);
                        assert(encoding.len() == done.len() + varint_bytes(v as nat).len());
                        assert(encoding.take(done.len() as int) =~= done);
                    }
                }
                Err(e)
            },
        }
    }

    /// Writes the byte length of the UTF-8 form of `value` as a
    /// variable-length integer, then the UTF-8 bytes, and returns the number
    /// of UTF-8 bytes written. A text of more bytes than a signed 32-bit
    /// length can count is refused and nothing is written. Where a reliable
    /// medium has no room for length and text, what fits of the length is
    /// written and nothing of the text.
    pub fn write_string(&mut self, value: String) -> (r: Result<u64, BufferError>)
        requires
            old(self).inv(),
        ensures
            final(self).inv(),
            old(self).akin(final(self)),
            encode_utf8(value@).len() > i32::MAX ==> r is Err && old(self).same_state(final(self)),
            ({
                let start = old(self).cursor();
                let payload = encode_utf8(value@);
                let prefix = varint_bytes(payload.len());
                match r {
                    Ok(count) => {
                        &&& count == payload.len() <= i32::MAX
                        &&& start + prefix.len() + payload.len() <= old(self).limit()
                        &&& final(self).contents() == overwrite(
                            old(self).contents(),
                            start,
                            string_bytes(value@),
                        )
                        &&& final(self).cursor() == start + prefix.len() + payload.len()
                    },
                    Err(BufferError::IOFailure) => payload.len() <= i32::MAX && old(
                        self,
                    ).reliable() ==> {
                        let room = old(self).limit() - start;
                        let kept = if room < prefix.len() {
                            room
                        } else {
                            prefix.len() as int
                        };
                        &&& room < prefix.len() + payload.len()
                        &&& final(self).contents() == overwrite(
                            old(self).contents(),
                            start,
                            prefix.take(kept),
                        )
                        &&& final(self).cursor() == start + kept
                    },
                    Err(_) => false,
                }
            }),
            old(self).reliable() ==> (r is Ok <==> encode_utf8(value@).len() <= i32::MAX && old(
                self,
            ).cursor() + string_bytes(value@).len() <= old(self).limit()),
    {
        let text: &str = value.as_str();
        let bytes: &[u8] = text.as_bytes();
        if bytes.len() > 0x7fff_ffff {
            return Err(BufferError::IOFailure);
        }
        let count: i32 = bytes.len() as i32;
        let ghost start = self.cursor();
        let ghost before = self.contents();
        let ghost prefix = varint_bytes(bytes@.len());
        match self.write_7bit_int(count) {
            Ok(_) => {},
            Err(e) => {
                return Err(e);
            },
        }
        match self.put(bytes) {
            Ok(written) => {
                proof {
                    lemma_overwrite_twice(before, start, prefix, bytes@);
                }
                Ok(written)
            },
            Err(e) => {
                proof {
                    assert(prefix.take(prefix.len() as int) =~= prefix);
                }
                Err(e)
            },
        }
    }

    /// The whole contents of the stream, wherever the cursor stands. The
    /// cursor ends behind the last byte.
    pub fn to_vec(&mut self) -> (r: Result<Vec<u8>, BufferError>)
        requires
            old(self).inv(),
        ensures
            final(self).inv(),
            old(self).akin(final(self)),
            final(self).contents() == old(self).contents(),
            match r {
                Ok(bytes) => bytes@ == old(self).contents() && final(self).cursor() == old(
                    self,
                ).contents().len(),
                Err(BufferError::IndexOutOfRange { index }) => index == 0 && !old(self).reliable(),
                Err(BufferError::ReadFailure { .. }) => !old(self).reliable(),
                Err(_) => false,
            },
            old(self).reliable() ==> r is Ok,
    {
        let len = match seek_in(&mut self.writer, 0, SeekOrigin::End) {
            Ok(at) => at,
            Err(e) => return Err(e),
        };
        match seek_in(&mut self.writer, 0, SeekOrigin::Begin) {
            Ok(_) => {},
            Err(e) => return Err(e),
        }
        let answer = self.writer.read_exact(len);
        proof {
            if answer is Ok {
                assert(answer->Ok_0@ =~= old(self).contents());
            }
        }
        read_outcome(answer)
    }
}

} // verus!
