//! A medium that fails once, to see what the codec makes of a fault.
use vstd::prelude::*;
use crate::buffer::medium::refusal;
use crate::buffer::medium::well_formed;
use crate::buffer::medium::Medium;
use crate::buffer::medium::MemoryStream;
use crate::buffer::medium::MAX_STREAM_LEN;
use crate::buffer::SeekOrigin;

verus! {

/// A medium held in memory that is not reliable: it carries out a given
/// number of operations, fails the next one whatever it is, and works again
/// from then on. The failed operation changes nothing.
pub struct FaultyStream {
    inner: MemoryStream,
    countdown: u64,
    armed: bool,
}

impl FaultyStream {
    /// A stream over `data` with its cursor at the first byte, which fails
    /// the operation that follows `sound` successful ones.
    pub fn new(data: Vec<u8>, sound: u64) -> (stream: Self)
        requires
            data@.len() <= MAX_STREAM_LEN,
        ensures
            well_formed(&stream),
            !stream.reliable(),
            stream.contents() == data@,
            stream.cursor() == 0,
            stream.fault_pending(),
            stream.sound_operations() == sound,
    {
        FaultyStream { inner: MemoryStream::new(data), countdown: sound, armed: true }
    }

    /// Whether the fault is still to come.
    pub closed spec fn fault_pending(&self) -> bool {
        self.armed
    }

    /// The number of operations that succeed before the fault, while it is
    /// still to come.
    pub closed spec fn sound_operations(&self) -> nat {
        self.countdown as nat
    }

    /// Gives up the stream for the bytes that it holds.
    pub fn into_inner(self) -> (data: Vec<u8>)
        ensures
            data@ == self.contents(),
    {
        self.inner.into_inner()
    }

    /// Counts one operation and says whether it is the one to fail.
    fn strikes(&mut self) -> (fails: bool)
        ensures
            final(self).inner == old(self).inner,
            fails <==> old(self).fault_pending() && old(self).sound_operations() == 0,
            final(self).fault_pending() <==> old(self).fault_pending() && !fails,
            final(self).fault_pending() ==> final(self).sound_operations() + 1 == old(
                self,
            ).sound_operations(),
    {
        if !self.armed {
            false
        } else if self.countdown == 0 {
            self.armed = false;
            true
        } else {
            self.countdown = self.countdown - 1;
            false
        }
    }
}

impl Medium for FaultyStream {
    closed spec fn contents(&self) -> Seq<u8> {
        self.inner.contents()
    }

    closed spec fn cursor(&self) -> int {
        self.inner.cursor()
    }

    closed spec fn limit(&self) -> int {
        self.inner.limit()
    }

    open spec fn reliable(&self) -> bool {
        false
    }

    fn seek(&mut self, offset: i64, origin: SeekOrigin) -> (r: Result<u64, std::io::Error>)
        ensures
            r is Ok <==> !old(self).fault_due() && 0 <= crate::buffer::medium::seek_target(
                old(self).cursor(),
                old(self).contents().len() as int,
                offset as int,
                origin,
            ) <= old(self).contents().len(),
            r is Err ==> final(self).cursor() == old(self).cursor(),
            old(self).one_operation_on(final(self)),
    {
        if self.strikes() {
            return Err(refusal());
        }
        self.inner.seek(offset, origin)
    }

    fn read_exact(&mut self, count: u64) -> (r: Result<Vec<u8>, std::io::Error>)
        ensures
            r is Ok <==> !old(self).fault_due() && old(self).cursor() + count <= old(
                self,
            ).contents().len(),
            r is Err ==> final(self).cursor() == old(self).cursor(),
            old(self).one_operation_on(final(self)),
    {
        if self.strikes() {
            return Err(refusal());
        }
        self.inner.read_exact(count)
    }

    fn write(&mut self, data: &[u8]) -> (r: Result<usize, std::io::Error>)
        ensures
            r is Ok <==> !old(self).fault_due() && old(self).cursor() + data@.len() <= old(
                self,
            ).limit(),
            r is Err ==> final(self).cursor() == old(self).cursor() && final(self).contents()
                == old(self).contents(),
            old(self).one_operation_on(final(self)),
    {
        if self.strikes() {
            return Err(refusal());
        }
        self.inner.write(data)
    }
}

impl FaultyStream {
    /// Whether the next operation is the one that fails.
    pub open spec fn fault_due(&self) -> bool {
        self.fault_pending() && self.sound_operations() == 0
    }

    /// Whether `after` is this stream one operation later, as far as the
    /// fault goes: an operation that was due to fail has spent the fault,
    /// and any other has brought a pending fault one operation nearer.
    pub open spec fn one_operation_on(&self, after: &Self) -> bool {
        &&& after.fault_pending() <==> self.fault_pending() && !self.fault_due()
        &&& after.fault_pending() ==> after.sound_operations() + 1 == self.sound_operations()
    }
}

} // verus!
