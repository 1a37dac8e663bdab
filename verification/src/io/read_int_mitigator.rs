//! Interrupt-tolerant reading.
//!
//! `ByteSource` models a byte stream that may deliver short reads and
//! transient interruption signals; `ReadIntMitigator` wraps one and retries
//! until the destination buffer is full, the stream ends, or a
//! non-transient error occurs. The embedding program implements
//! `ByteSource` for real files; `InterruptingReader` is the in-memory
//! source used to exercise the retry logic.

use vstd::prelude::*;
use vstd::pervasive::VecAdditionalExecFns;

use crate::verdict::ErrorKind;

verus! {

/// One outcome of asking a source for bytes.
pub enum ReadStep {
    /// This many bytes were delivered.
    Read(usize),
    /// Nothing was delivered; `ErrorKind::Interrupted` is transient.
    Failed(ErrorKind),
}

/// A readable byte stream with a position.
///
/// `data` is the whole stream, `pos` how far it has been consumed. A read
/// delivers bytes of `data` in order, may fall short of the room offered,
/// and may fail: transiently (`Interrupted`, at most `budget` more times)
/// or, if the source is `broken`, for good; every non-transient failure
/// kind is recorded in `failed`. Every implementation keeps its own
/// invariant `inv` across reads.
pub trait ByteSource: Sized {
    /// The whole byte stream. The default model is the empty stream: a
    /// source that does not override it promises nothing about its bytes.
    open spec fn data(&self) -> Seq<u8> {
        Seq::<u8>::empty()
    }

    /// How many bytes have been consumed.
    open spec fn pos(&self) -> nat {
        0
    }

    /// An upper bound on the transient interruptions still to come.
    open spec fn budget(&self) -> nat {
        0
    }

    /// Whether non-transient failures may occur.
    open spec fn broken(&self) -> bool {
        true
    }

    /// The non-transient failure kinds the source has delivered so far.
    open spec fn failed(&self) -> Set<ErrorKind> {
        Set::<ErrorKind>::empty()
    }

    /// The implementation's own well-formedness.
    open spec fn inv(&self) -> bool {
        true
    }

    /// Reads into `buf[offset..]`, delivering the next bytes of the stream.
    /// A delivery of zero bytes means the stream is exhausted (or no room
    /// was offered); `Failed(Interrupted)` consumes interruption budget and
    /// nothing else; any other failure only occurs on a broken source and
    /// is recorded in `failed`.
    fn read_at(&mut self, buf: &mut Vec<u8>, offset: usize) -> (r: ReadStep)
        requires
            old(self).inv(),
            offset <= old(buf).len(),
        ensures
            final(self).inv(),
            final(self).data() == old(self).data(),
            final(self).broken() == old(self).broken(),
            final(buf).len() == old(buf).len(),
            forall|i: int| 0 <= i < offset ==> final(buf)@[i] == old(buf)@[i],
            match r {
                ReadStep::Read(n) => {
                    &&& offset + n <= old(buf).len()
                    &&& old(self).pos() + n <= old(self).data().len()
                    &&& final(self).pos() == old(self).pos() + n
                    &&& final(self).budget() <= old(self).budget()
                    &&& final(self).failed() == old(self).failed()
                    &&& forall|i: int|
                        0 <= i < n ==> #[trigger] final(buf)@[offset + i] == old(self).data()[old(self).pos() + i]
                    &&& (n == 0 ==> old(self).pos() == old(self).data().len() || offset == old(
                        buf,
                    ).len())
                },
                ReadStep::Failed(k) => {
                    &&& final(self).pos() == old(self).pos()
                    &&& final(self).budget() <= old(self).budget()
                    &&& (k == ErrorKind::Interrupted ==> final(self).budget() < old(self).budget()
                        && final(self).failed() == old(self).failed())
                    &&& (k != ErrorKind::Interrupted ==> old(self).broken() && final(self).failed()
                        == old(self).failed().insert(k))
                },
            },
    ;
}

/// The retry loop behind `ReadIntMitigator::read`, usable on a borrowed
/// source: fills `buf` from `src`, retrying transient interruptions and
/// short reads transparently. Fewer bytes than `buf` holds come back only
/// at true end of stream; a returned error is non-transient and is a kind
/// the source itself delivered.
#[verifier::loop_isolation(false)]
pub(crate) fn read_mitigated<S: ByteSource>(src: &mut S, buf: &mut Vec<u8>) -> (r: Result<
    usize,
    ErrorKind,
>)
    requires
        old(src).inv(),
        old(src).pos() <= old(src).data().len(),
    ensures
        final(src).inv(),
        final(src).data() == old(src).data(),
        final(src).broken() == old(src).broken(),
        final(buf).len() == old(buf).len(),
        match r {
            Result::Ok(n) => {
                &&& n <= old(buf).len()
                &&& old(src).pos() + n <= old(src).data().len()
                &&& n == if old(buf)@.len() <= old(src).data().len() - old(src).pos() {
                    old(buf)@.len() as int
                } else {
                    old(src).data().len() - old(src).pos()
                }
                &&& final(src).pos() == old(src).pos() + n
                &&& final(src).failed() == old(src).failed()
                &&& forall|i: int|
                    0 <= i < n ==> #[trigger] final(buf)@[i] == old(src).data()[old(src).pos() + i]
            },
            Result::Err(k) => {
                &&& k != ErrorKind::Interrupted
                &&& old(src).broken()
                &&& final(src).failed().contains(k)
            },
        },
{
    let mut to_read: usize = buf.len();
    loop
        invariant
            src.inv(),
            to_read <= buf.len(),
            buf.len() == old(buf).len(),
            src.data() == old(src).data(),
            src.broken() == old(src).broken(),
            src.failed() == old(src).failed(),
            src.pos() == old(src).pos() + (buf.len() - to_read),
            old(src).pos() + (buf.len() - to_read) <= src.data().len(),
            forall|i: int|
                0 <= i < buf.len() - to_read ==> #[trigger] buf@[i] == old(src).data()[old(
                    src,
                ).pos() + i],
        decreases to_read, src.budget(),
    {
        if to_read == 0 {
            return Result::Ok(buf.len());
        }
        let offset = buf.len() - to_read;
        let step = src.read_at(buf, offset);
        match step {
            ReadStep::Read(n) => {
                if n == 0 {
                    // end of stream: everything available has been read
                    return Result::Ok(offset);
                }
                proof {
                    assert forall|i: int|
                        0 <= i < offset + n implies #[trigger] buf@[i] == old(src).data()[old(
                        src,
                    ).pos() + i] by {
                        if i >= offset {
                            assert(buf@[offset + (i - offset)] == old(src).data()[old(
                                src,
                            ).pos() + offset + (i - offset)]);
                        }
                    }
                }
                to_read = to_read - n;
            },
            ReadStep::Failed(k) => {
                if !matches!(k, ErrorKind::Interrupted) {
                    return Result::Err(k);
                }
                // transient: try again
            },
        }
    }
}

/// Reader wrapper which mitigates problems with incomplete or interrupted
/// reads.
pub struct ReadIntMitigator<R: ByteSource>(pub R);

impl<R: ByteSource> ReadIntMitigator<R> {
    /// Fills `buf` from the source. Fewer bytes than `buf` holds come back
    /// only at true end of stream; transient interruptions and short reads
    /// are retried transparently, with no byte lost or corrupted; a
    /// returned error is non-transient and is a kind the source itself
    /// delivered.
    pub fn read(&mut self, buf: &mut Vec<u8>) -> (r: Result<usize, ErrorKind>)
        requires
            old(self).0.inv(),
            old(self).0.pos() <= old(self).0.data().len(),
        ensures
            final(self).0.inv(),
            final(self).0.data() == old(self).0.data(),
            final(self).0.broken() == old(self).0.broken(),
            final(buf).len() == old(buf).len(),
            match r {
                Result::Ok(n) => {
                    &&& n <= old(buf).len()
                    &&& old(self).0.pos() + n <= old(self).0.data().len()
                    &&& n == if old(buf)@.len() <= old(self).0.data().len() - old(self).0.pos() {
                        old(buf)@.len() as int
                    } else {
                        old(self).0.data().len() - old(self).0.pos()
                    }
                    &&& final(self).0.pos() == old(self).0.pos() + n
                    &&& final(self).0.failed() == old(self).0.failed()
                    &&& forall|i: int|
                        0 <= i < n ==> #[trigger] final(buf)@[i] == old(self).0.data()[old(self).0.pos() + i]
                },
                Result::Err(k) => {
                    &&& k != ErrorKind::Interrupted
                    &&& old(self).0.broken()
                    &&& final(self).0.failed().contains(k)
                },
            },
    {
        read_mitigated(&mut self.0, buf)
    }
}

/// An in-memory byte source that injects transient interruptions and short
/// reads: it interrupts the next `interrupt_no` reads and never delivers
/// more than `max_len` bytes at once.
pub struct InterruptingReader {
    pub content: Vec<u8>,
    pub pos: usize,
    pub max_len: usize,
    pub interrupt_no: usize,
}

impl ByteSource for InterruptingReader {
    open spec fn data(&self) -> Seq<u8> {
        self.content@
    }

    open spec fn pos(&self) -> nat {
        self.pos as nat
    }

    open spec fn budget(&self) -> nat {
        self.interrupt_no as nat
    }

    open spec fn broken(&self) -> bool {
        false
    }

    open spec fn inv(&self) -> bool {
        self.pos <= self.content.len() && self.max_len >= 1
    }

    fn read_at(&mut self, buf: &mut Vec<u8>, offset: usize) -> (r: ReadStep) {
        if self.interrupt_no > 0 {
            self.interrupt_no = self.interrupt_no - 1;
            return ReadStep::Failed(ErrorKind::Interrupted);
        }
        let room = buf.len() - offset;
        let avail = self.content.len() - self.pos;
        let mut n = if room < avail {
            room
        } else {
            avail
        };
        if self.max_len < n {
            n = self.max_len;
        }
        let mut i: usize = 0;
        while i < n
            invariant
                i <= n,
                n <= buf.len() - offset,
                n <= self.content.len() - self.pos,
                buf.len() == old(buf).len(),
                self == old(self),
                forall|j: int| 0 <= j < offset ==> buf@[j] == old(buf)@[j],
                forall|j: int| 0 <= j < i ==> #[trigger] buf@[offset + j] == self.content@[self.pos + j],
            decreases n - i,
        {
            buf.set(offset + i, self.content[self.pos + i]);
            i = i + 1;
        }
        self.pos = self.pos + n;
        ReadStep::Read(n)
    }
}

} // verus!
