//! The seekable byte medium that the codec drives, and one that is held in
//! memory.
use vstd::prelude::*;
use vstd::slice::slice_index_get;
use crate::buffer::SeekOrigin;

verus! {

/// The greatest length of a medium: offsets are signed 64-bit numbers.
pub const MAX_STREAM_LEN: u64 = 0x7fff_ffff_ffff_ffff;

/// A cursor within a stream of `len` bytes that may grow to `limit` bytes.
pub open spec fn in_bounds(cursor: int, len: int, limit: int) -> bool {
    0 <= cursor <= len <= limit <= MAX_STREAM_LEN
}

/// The absolute offset that a seek by `offset` from `origin` asks for, in a
/// stream of `len` bytes whose cursor stands at `cursor`.
pub open spec fn seek_target(cursor: int, len: int, offset: int, origin: SeekOrigin) -> int {
    match origin {
        SeekOrigin::Begin => offset,
        SeekOrigin::Current => cursor + offset,
        SeekOrigin::End => len + offset,
    }
}

/// The contents of a stream after `data` is written at offset `at`: the bytes
/// under `data` are replaced, and the stream grows where `data` goes past its
/// end.
pub open spec fn overwrite(contents: Seq<u8>, at: int, data: Seq<u8>) -> Seq<u8>
    recommends
        0 <= at <= contents.len(),
{
    let tail = if at + data.len() < contents.len() {
        contents.subrange(at + data.len(), contents.len() as int)
    } else {
        Seq::empty()
    };
    contents.subrange(0, at) + data + tail
}

/// Overwriting changes the length only where the data goes past the end.
pub proof fn lemma_overwrite_len(contents: Seq<u8>, at: int, data: Seq<u8>)
    requires
        0 <= at <= contents.len(),
    ensures
        overwrite(contents, at, data).len() == if at + data.len() < contents.len() {
            contents.len() as int
        } else {
            at + data.len()
        },
{
}

/// From the offset of a write on, the stream holds the data and then what
/// stood behind it before.
pub proof fn lemma_overwrite_from(contents: Seq<u8>, at: int, data: Seq<u8>)
    requires
        0 <= at <= contents.len(),
    ensures
        ({
            let written = overwrite(contents, at, data);
            let tail = written.subrange(at + data.len(), written.len() as int);
            &&& written.subrange(at, at + data.len()) == data
            &&& written.subrange(at, written.len() as int) == data + tail
            &&& written.subrange(0, at) == contents.subrange(0, at)
        }),
{
    let written = overwrite(contents, at, data);
    let tail = written.subrange(at + data.len(), written.len() as int);
    assert(written.subrange(at, at + data.len()) =~= data);
    assert(written.subrange(at, written.len() as int) =~= data + tail);
    assert(written.subrange(0, at) =~= contents.subrange(0, at));
}

/// Two writes, the second where the first ended, are one write of both.
pub proof fn lemma_overwrite_twice(contents: Seq<u8>, at: int, first: Seq<u8>, second: Seq<u8>)
    requires
        0 <= at <= contents.len(),
    ensures
        overwrite(overwrite(contents, at, first), at + first.len(), second) == overwrite(
            contents,
            at,
            first + second,
        ),
{
    assert(overwrite(overwrite(contents, at, first), at + first.len(), second) =~= overwrite(
        contents,
        at,
        first + second,
    ));
}

/// A seekable sequence of bytes with a cursor.
///
/// The codec is proved against this contract. A medium says of itself whether
/// it is `reliable`; one that is not may fail any operation, and a failed
/// operation may leave its cursor, and a failed write its contents, anywhere
/// within the bounds of `well_formed`.
pub trait Medium: Sized {
    /// The bytes that the medium holds, from its first to its last.
    spec fn contents(&self) -> Seq<u8>;

    /// The offset at which the next read or write takes place.
    spec fn cursor(&self) -> int;

    /// The greatest length that the contents may grow to.
    spec fn limit(&self) -> int;

    /// Whether every operation succeeds that the contents and the limit
    /// allow, and a refused operation changes nothing.
    spec fn reliable(&self) -> bool;

    /// Moves the cursor to the offset that `offset` and `origin` ask for and
    /// returns it. An offset before the first byte or after the last one is
    /// refused.
    fn seek(&mut self, offset: i64, origin: SeekOrigin) -> (r: Result<u64, std::io::Error>)
        requires
            in_bounds(old(self).cursor(), old(self).contents().len() as int, old(self).limit()),
        ensures
            in_bounds(
                final(self).cursor(),
                final(self).contents().len() as int,
                final(self).limit(),
            ),
            final(self).limit() == old(self).limit(),
            final(self).reliable() == old(self).reliable(),
            final(self).contents() == old(self).contents(),
            r matches Ok(at) ==> {
                &&& at == seek_target(
                    old(self).cursor(),
                    old(self).contents().len() as int,
                    offset as int,
                    origin,
                )
                &&& final(self).cursor() == at
            },
            old(self).reliable() ==> {
                let target = seek_target(
                    old(self).cursor(),
                    old(self).contents().len() as int,
                    offset as int,
                    origin,
                );
                &&& r is Ok <==> 0 <= target <= old(self).contents().len()
                &&& r is Err ==> final(self).cursor() == old(self).cursor()
            },
    ;

    /// Reads the `count` bytes at the cursor and moves the cursor past them.
    fn read_exact(&mut self, count: u64) -> (r: Result<Vec<u8>, std::io::Error>)
        requires
            in_bounds(old(self).cursor(), old(self).contents().len() as int, old(self).limit()),
        ensures
            in_bounds(
                final(self).cursor(),
                final(self).contents().len() as int,
                final(self).limit(),
            ),
            final(self).limit() == old(self).limit(),
            final(self).reliable() == old(self).reliable(),
            final(self).contents() == old(self).contents(),
            r matches Ok(bytes) ==> {
                &&& old(self).cursor() + count <= old(self).contents().len()
                &&& bytes@ == old(self).contents().subrange(
                    old(self).cursor(),
                    old(self).cursor() + count,
                )
                &&& final(self).cursor() == old(self).cursor() + count
            },
            old(self).reliable() ==> {
                &&& r is Ok <==> old(self).cursor() + count <= old(self).contents().len()
                &&& r is Err ==> final(self).cursor() == old(self).cursor()
            },
    ;

    /// Writes `data` at the cursor, over what stands there and past the end
    /// where it is longer, and moves the cursor past it. Returns the number of
    /// bytes written, which is all of them.
    fn write(&mut self, data: &[u8]) -> (r: Result<usize, std::io::Error>)
        requires
            in_bounds(old(self).cursor(), old(self).contents().len() as int, old(self).limit()),
        ensures
            in_bounds(
                final(self).cursor(),
                final(self).contents().len() as int,
                final(self).limit(),
            ),
            final(self).limit() == old(self).limit(),
            final(self).reliable() == old(self).reliable(),
            r matches Ok(count) ==> {
                &&& count == data@.len()
                &&& old(self).cursor() + data@.len() <= old(self).limit()
                &&& final(self).contents() == overwrite(
                    old(self).contents(),
                    old(self).cursor(),
                    data@,
                )
                &&& final(self).cursor() == old(self).cursor() + data@.len()
            },
            old(self).reliable() ==> {
                &&& r is Ok <==> old(self).cursor() + data@.len() <= old(self).limit()
                &&& r is Err ==> final(self).contents() == old(self).contents()
                &&& r is Err ==> final(self).cursor() == old(self).cursor()
            },
    ;
}

/// The cursor of `medium` lies within its contents, and its contents within
/// its limit.
pub open spec fn well_formed<M: Medium>(medium: &M) -> bool {
    in_bounds(medium.cursor(), medium.contents().len() as int, medium.limit())
}

/// Whether `after` may be `before` at a later moment: it has the same limit
/// and is as reliable.
pub open spec fn akin<M: Medium>(before: &M, after: &M) -> bool {
    before.limit() == after.limit() && before.reliable() == after.reliable()
}

/// Whether two media hold the same bytes, with their cursors at the same
/// offset.
pub open spec fn same_state<M: Medium>(before: &M, after: &M) -> bool {
    before.contents() == after.contents() && before.cursor() == after.cursor()
}

/// The fault with which a medium in memory refuses an operation.
///
/// Calls `std::io::Error::from` with the kind `InvalidInput`. Nothing is
/// claimed of the value.
#[verifier::external_body]
pub(crate) fn refusal() -> std::io::Error {
    std::io::Error::from(std::io::ErrorKind::InvalidInput)
}

/// A reliable medium held in memory: a growable byte buffer with a cursor and
/// a limit on its length.
pub struct MemoryStream {
    data: Vec<u8>,
    at: usize,
    limit: usize,
}

impl MemoryStream {
    /// A stream over `data` with its cursor at the first byte. It may grow as
    /// far as offsets and the machine's addresses reach.
    pub fn new(data: Vec<u8>) -> (stream: Self)
        requires
            data@.len() <= MAX_STREAM_LEN,
        ensures
            well_formed(&stream),
            stream.reliable(),
            stream.contents() == data@,
            stream.cursor() == 0,
            stream.limit() == if usize::MAX <= MAX_STREAM_LEN {
                usize::MAX as int
            } else {
                MAX_STREAM_LEN as int
            },
    {
        let held: usize = data.len();
        let limit: usize = if usize::MAX as u64 <= MAX_STREAM_LEN {
            usize::MAX
        } else {
            MAX_STREAM_LEN as usize
        };
        assert(held <= limit);
        MemoryStream { data, at: 0, limit }
    }

    /// A stream over `data` with its cursor at the first byte, which never
    /// grows beyond `limit` bytes. Returns `None` where `data` is already
    /// longer than `limit`, or `limit` is more than an offset can reach.
    pub fn with_limit(data: Vec<u8>, limit: usize) -> (made: Option<Self>)
        ensures
            made is Some <==> data@.len() <= limit <= MAX_STREAM_LEN,
            made matches Some(stream) ==> {
                &&& well_formed(&stream)
                &&& stream.reliable()
                &&& stream.contents() == data@
                &&& stream.cursor() == 0
                &&& stream.limit() == limit
            },
    {
        if data.len() <= limit && limit as u64 <= MAX_STREAM_LEN {
            Some(MemoryStream { data, at: 0, limit })
        } else {
            None
        }
    }

    /// Gives up the stream for the bytes that it holds.
    pub fn into_inner(self) -> (data: Vec<u8>)
        ensures
            data@ == self.contents(),
    {
        self.data
    }
}

impl Medium for MemoryStream {
    closed spec fn contents(&self) -> Seq<u8> {
        self.data@
    }

    closed spec fn cursor(&self) -> int {
        self.at as int
    }

    closed spec fn limit(&self) -> int {
        self.limit as int
    }

    open spec fn reliable(&self) -> bool {
        true
    }

    fn seek(&mut self, offset: i64, origin: SeekOrigin) -> (r: Result<u64, std::io::Error>) {
        let len: i64 = self.data.len() as i64;
        let here: i64 = self.at as i64;
        let base: i64 = match origin {
            SeekOrigin::Begin => 0,
            SeekOrigin::Current => here,
            SeekOrigin::End => len,
        };
        if offset < -base || offset > len - base {
            return Err(refusal());
        }
        let target: i64 = base + offset;
        self.at = target as usize;
        Ok(target as u64)
    }

    fn read_exact(&mut self, count: u64) -> (r: Result<Vec<u8>, std::io::Error>) {
        let left: usize = self.data.len() - self.at;
        if count > left as u64 {
            return Err(refusal());
        }
        let start: usize = self.at;
        let end: usize = start + count as usize;
        let mut bytes: Vec<u8> = Vec::new();
        let mut i: usize = start;
        while i < end
            invariant
                start <= i <= end <= self.data.len(),
                bytes@ == self.data@.subrange(start as int, i as int),
            decreases end - i,
        {
            bytes.push(self.data[i]);
            i += 1;
            assert(bytes@ =~= self.data@.subrange(start as int, i as int));
        }
        self.at = end;
        Ok(bytes)
    }

    fn write(&mut self, data: &[u8]) -> (r: Result<usize, std::io::Error>) {
        let count: usize = data.len();
        if count > self.limit - self.at {
            return Err(refusal());
        }
        let start: usize = self.at;
        let ghost before = self.data@;
        let mut i: usize = 0;
        while i < count
            invariant
                0 <= i <= count == data@.len(),
                start + count <= self.limit <= MAX_STREAM_LEN,
                start <= before.len(),
                self.limit == old(self).limit,
                self.at == start,
                self.data@ == overwrite(before, start as int, data@.subrange(0, i as int)),
            decreases count - i,
        {
            let byte: u8 = *slice_index_get(data, i);
            if start + i < self.data.len() {
                self.data.set(start + i, byte);
            } else {
                self.data.push(byte);
            }
            i += 1;
            assert(self.data@ =~= overwrite(before, start as int, data@.subrange(0, i as int)));
        }
        assert(data@.subrange(0, count as int) =~= data@);
        self.at = start + count;
        Ok(count)
    }
}

} // verus!
