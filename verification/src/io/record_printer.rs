//! Record printers: buffered output with optional progress reporting.

use vstd::prelude::*;

use crate::bytes::ascii_bytes;
use crate::bytes::dec_bytes;
use crate::bytes::str_to_bytes;
use crate::bytes::push_bytes;
use crate::bytes::u64_to_dec;
use crate::io::manual_buf_writer::ByteSink;
use crate::io::manual_buf_writer::ManualBufWriter;
use crate::io::output_record::OutputRecord;
use crate::io::progress_status::ProgressStatus;

verus! {

/// How much may be buffered before flushing (512 KiB).
pub const BYTES_PER_FLUSH: usize = 524288;

proof fn lemma_skip_append(a: Seq<u8>, b: Seq<u8>, n: int)
    requires
        0 <= n <= a.len(),
    ensures
        (a + b).skip(n) =~= a.skip(n) + b,
{
}

/// The bytes of one redrawn progress line: the cursor-save sequence
/// followed by the counter text.
pub open spec fn progress_line_bytes(p: nat, t: nat, pct: nat) -> Seq<u8> {
    ascii_bytes("\x1B7"@) + ascii_bytes("Files processed: "@) + dec_bytes(p) + seq![47u8]
        + dec_bytes(t) + seq![32u8, 40u8] + dec_bytes(pct) + seq![37u8, 41u8]
}

/// The cursor-restore and clear-below sequences left buffered after a
/// redraw, so that the next flush clears the progress line first.
pub open spec fn restore_clear_bytes() -> Seq<u8> {
    ascii_bytes("\x1B8"@) + ascii_bytes("\x1B[J"@)
}

/// What one print call does to the progress counters `(processed, total)`:
/// the element is counted, then the remaining hint is taken, each step
/// guarded against exceeding the machine's count range.
pub open spec fn progressive_counts(p: nat, t: nat, more: nat) -> (nat, nat) {
    if p < usize::MAX as nat {
        let p2 = p + 1;
        let t2 = if t == p {
            t + 1
        } else {
            t
        };
        if more <= usize::MAX as nat - p2 {
            (p2, (if t2 < p2 + more {
                p2 + more
            } else {
                t2
            }))
        } else {
            (p2, t2)
        }
    } else {
        (p, t)
    }
}

/// The completion percentage shown for `p` of `t` items.
pub open spec fn percent_of(p: nat, t: nat) -> int {
    (p as int * 100) / (t as int)
}

/// Prints `OutputRecord`s, assuming it's called from within a loop.
///
/// `vis` and `diag` are all visible and diagnostic bytes accepted so far;
/// `out_content` is the part of the visible bytes that has reached the
/// underlying stream. Implementations may buffer, but `finish` leaves every
/// visible byte at the stream and nothing diagnostic stuck in a buffer.
/// Each implementation's own `print` additionally pins when bytes reach
/// the streams.
pub trait RecordPrinter: Sized {
    /// All visible bytes accepted so far.
    spec fn vis(&self) -> Seq<u8>;

    /// All diagnostic bytes accepted so far.
    spec fn diag(&self) -> Seq<u8>;

    /// The visible bytes that have reached the underlying stream.
    spec fn out_content(&self) -> Seq<u8>;

    /// Whether the diagnostic side has been fully passed on.
    spec fn err_done(&self) -> bool;

    /// The implementation's well-formedness.
    spec fn inv(&self) -> bool;

    /// The main function of `RecordPrinter`. Should be called in a loop.
    ///
    /// `more` hints how many elements are left to be processed after the
    /// current one. It should be called even when there is nothing to
    /// print (just use the empty record) — to provide accurate (and
    /// frequent enough) progress reports.
    fn print(&mut self, record: &OutputRecord, more: usize)
        requires
            old(self).inv(),
        ensures
            final(self).inv(),
            final(self).vis() == old(self).vis() + record.stdout@,
            final(self).diag() == old(self).diag() + record.stderr@,
    ;

    /// Should be called after the loop is finished. It flushes all output.
    fn finish(&mut self)
        requires
            old(self).inv(),
        ensures
            final(self).inv(),
            final(self).vis() == old(self).vis(),
            final(self).diag() == old(self).diag(),
            final(self).out_content() == final(self).vis(),
            final(self).err_done(),
    ;
}

/// `RecordPrinter` which implements output buffering, but not progress
/// reporting.
pub struct PlainRecordPrinter<O: ByteSink, E: ByteSink> {
    stdout: ManualBufWriter<O>,
    stderr: ManualBufWriter<E>,
    base_out: Ghost<Seq<u8>>,
    base_err: Ghost<Seq<u8>>,
}

impl<O: ByteSink, E: ByteSink> PlainRecordPrinter<O, E> {
    /// The diagnostic bytes that have reached the underlying stream.
    pub closed spec fn err_content(&self) -> Seq<u8> {
        self.stderr.out().skip(self.base_err@.len() as int)
    }

    /// Everything the visible stream holds.
    pub closed spec fn out_stream(&self) -> Seq<u8> {
        self.stdout.out()
    }

    /// Everything the diagnostic stream holds.
    pub closed spec fn err_stream(&self) -> Seq<u8> {
        self.stderr.out()
    }

    /// Constructor.
    pub fn new(stdout: O, stderr: E) -> (r: PlainRecordPrinter<O, E>)
        ensures
            r.inv(),
            r.vis() == Seq::<u8>::empty(),
            r.diag() == Seq::<u8>::empty(),
            r.out_content() == Seq::<u8>::empty(),
            r.err_content() == Seq::<u8>::empty(),
    {
        let ghost base_out = stdout.content();
        let ghost base_err = stderr.content();
        let r = PlainRecordPrinter {
            stdout: ManualBufWriter::new(stdout, 2 * BYTES_PER_FLUSH),
            stderr: ManualBufWriter::new(stderr, BYTES_PER_FLUSH),
            base_out: Ghost(base_out),
            base_err: Ghost(base_err),
        };
        proof {
            assert(r.stdout.out().subrange(0, base_out.len() as int) =~= base_out);
            assert(r.stderr.out().subrange(0, base_err.len() as int) =~= base_err);
            assert(r.stdout.out().skip(base_out.len() as int) =~= Seq::<u8>::empty());
            assert(r.stderr.out().skip(base_err.len() as int) =~= Seq::<u8>::empty());
            assert(r.vis() =~= Seq::<u8>::empty());
            assert(r.diag() =~= Seq::<u8>::empty());
        }
        r
    }

    /// Hands the underlying streams back, consuming the printer.
    pub fn into_streams(self) -> (r: (O, E))
        ensures
            r.0.content() == self.out_stream(),
            r.1.content() == self.err_stream(),
    {
        (self.stdout.into_inner(), self.stderr.into_inner())
    }
}

impl<O: ByteSink, E: ByteSink> RecordPrinter for PlainRecordPrinter<O, E> {
    closed spec fn vis(&self) -> Seq<u8> {
        self.stdout.out().skip(self.base_out@.len() as int) + self.stdout.buffered()
    }

    closed spec fn diag(&self) -> Seq<u8> {
        self.stderr.out().skip(self.base_err@.len() as int) + self.stderr.buffered()
    }

    closed spec fn out_content(&self) -> Seq<u8> {
        self.stdout.out().skip(self.base_out@.len() as int)
    }

    closed spec fn err_done(&self) -> bool {
        self.stderr.buffered().len() == 0
    }

    closed spec fn inv(&self) -> bool {
        &&& self.base_out@.len() <= self.stdout.out().len()
        &&& self.stdout.out().subrange(0, self.base_out@.len() as int) == self.base_out@
        &&& self.base_err@.len() <= self.stderr.out().len()
        &&& self.stderr.out().subrange(0, self.base_err@.len() as int) == self.base_err@
    }

    /// Flush policy: both buffers reach the streams exactly when the
    /// buffered visible bytes reach the threshold or the record carries
    /// diagnostics (diagnostics appear promptly); otherwise nothing reaches
    /// the streams in this call.
    fn print(&mut self, record: &OutputRecord, more: usize)
        ensures
            ({
                let pending = old(self).vis().len() - old(self).out_content().len()
                    + record.stdout@.len();
                if pending >= BYTES_PER_FLUSH as int || record.stderr@.len() > 0 {
                    &&& final(self).out_content() == final(self).vis()
                    &&& final(self).err_content() == final(self).diag()
                } else {
                    &&& final(self).out_content() == old(self).out_content()
                    &&& final(self).err_content() == old(self).err_content()
                }
            }),
    {
        self.stdout.write_all(&record.stdout);
        self.stderr.write_all(&record.stderr);
        proof {
            assert(self.vis() =~= old(self).vis() + record.stdout@);
            assert(self.diag() =~= old(self).diag() + record.stderr@);
        }
        if BYTES_PER_FLUSH <= self.stdout.len() || record.stderr.len() > 0 {
            let ghost pre = *self;
            self.stdout.flush();
            self.stderr.flush();
            proof {
                lemma_skip_append(pre.stdout.out(), pre.stdout.buffered(), self.base_out@.len() as int);
                lemma_skip_append(pre.stderr.out(), pre.stderr.buffered(), self.base_err@.len() as int);
                assert(self.stdout.out().subrange(0, self.base_out@.len() as int)
                    =~= pre.stdout.out().subrange(0, self.base_out@.len() as int));
                assert(self.stderr.out().subrange(0, self.base_err@.len() as int)
                    =~= pre.stderr.out().subrange(0, self.base_err@.len() as int));
                assert(self.vis() =~= pre.vis());
                assert(self.diag() =~= pre.diag());
                assert(self.out_content() =~= self.vis());
                assert(self.err_content() =~= self.diag());
            }
        }
    }

    /// After `finish`, both streams hold exactly what was accepted.
    fn finish(&mut self)
        ensures
            final(self).err_content() == final(self).diag(),
    {
        let ghost pre = *self;
        self.stdout.flush();
        self.stderr.flush();
        proof {
            lemma_skip_append(pre.stdout.out(), pre.stdout.buffered(), self.base_out@.len() as int);
            lemma_skip_append(pre.stderr.out(), pre.stderr.buffered(), self.base_err@.len() as int);
            assert(self.stdout.out().subrange(0, self.base_out@.len() as int)
                =~= pre.stdout.out().subrange(0, self.base_out@.len() as int));
            assert(self.stderr.out().subrange(0, self.base_err@.len() as int)
                =~= pre.stderr.out().subrange(0, self.base_err@.len() as int));
            assert(self.vis() =~= pre.vis());
            assert(self.diag() =~= pre.diag());
            assert(self.out_content() =~= self.vis());
            assert(self.err_content() =~= self.diag());
        }
    }
}

/// `RecordPrinter` which implements output buffering and progress
/// reporting: after each non-trivial record it redraws a progress line at
/// the bottom of the error stream using cursor save/restore control
/// sequences.
pub struct ProgressiveRecordPrinter<O: ByteSink, E: ByteSink> {
    stdout: ManualBufWriter<O>,
    stderr: ManualBufWriter<E>,
    status: ProgressStatus,
    last_percent: u128,
    base_out: Ghost<Seq<u8>>,
    base_err: Ghost<Seq<u8>>,
    diag_acc: Ghost<Seq<u8>>,
}

impl<O: ByteSink, E: ByteSink> ProgressiveRecordPrinter<O, E> {
    /// How many records have been counted.
    pub closed spec fn processed(&self) -> nat {
        self.status.processed_no as nat
    }

    /// The running total estimate.
    pub closed spec fn total(&self) -> nat {
        self.status.total_no as nat
    }

    /// The completion percentage of the last redrawn progress line.
    pub closed spec fn pct(&self) -> int {
        self.last_percent as int
    }

    /// The bytes that have reached the underlying error stream.
    pub closed spec fn err_content(&self) -> Seq<u8> {
        self.stderr.out().skip(self.base_err@.len() as int)
    }

    /// The bytes buffered for the error stream.
    pub closed spec fn err_buffered(&self) -> Seq<u8> {
        self.stderr.buffered()
    }

    /// Everything the visible stream holds.
    pub closed spec fn out_stream(&self) -> Seq<u8> {
        self.stdout.out()
    }

    /// Everything the diagnostic stream holds.
    pub closed spec fn err_stream(&self) -> Seq<u8> {
        self.stderr.out()
    }

    /// Constructor. `total_hint` is used for the denominator in progress
    /// reports.
    pub fn new(stdout: O, stderr: E, total_hint: usize) -> (r: ProgressiveRecordPrinter<O, E>)
        ensures
            r.inv(),
            r.vis() == Seq::<u8>::empty(),
            r.diag() == Seq::<u8>::empty(),
            r.out_content() == Seq::<u8>::empty(),
            r.err_content() == Seq::<u8>::empty(),
            r.err_buffered() == Seq::<u8>::empty(),
            r.processed() == 0,
            r.total() == total_hint,
            r.pct() == 0,
    {
        let ghost base_out = stdout.content();
        let ghost base_err = stderr.content();
        let r = ProgressiveRecordPrinter {
            stdout: ManualBufWriter::new(stdout, 2 * BYTES_PER_FLUSH),
            stderr: ManualBufWriter::new(stderr, BYTES_PER_FLUSH),
            status: ProgressStatus { total_no: total_hint, processed_no: 0 },
            last_percent: 0,
            base_out: Ghost(base_out),
            base_err: Ghost(base_err),
            diag_acc: Ghost(Seq::empty()),
        };
        proof {
            assert(r.stdout.out().subrange(0, base_out.len() as int) =~= base_out);
            assert(r.stderr.out().subrange(0, base_err.len() as int) =~= base_err);
            assert(r.stdout.out().skip(base_out.len() as int) =~= Seq::<u8>::empty());
            assert(r.stderr.out().skip(base_err.len() as int) =~= Seq::<u8>::empty());
            assert(r.vis() =~= Seq::<u8>::empty());
        }
        r
    }

    /// Hands the underlying streams back, consuming the printer.
    pub fn into_streams(self) -> (r: (O, E))
        ensures
            r.0.content() == self.out_stream(),
            r.1.content() == self.err_stream(),
    {
        (self.stdout.into_inner(), self.stderr.into_inner())
    }

    /// Flushes the error buffer, writes and flushes the progress line, and
    /// leaves the cursor-restore and clear-below sequences buffered for the
    /// next flush.
    fn redraw_progress(&mut self)
        requires
            old(self).inv(),
        ensures
            final(self).inv(),
            final(self).stdout == old(self).stdout,
            final(self).status == old(self).status,
            final(self).last_percent == old(self).last_percent,
            final(self).base_out == old(self).base_out,
            final(self).base_err == old(self).base_err,
            final(self).diag_acc == old(self).diag_acc,
            final(self).err_content() == old(self).err_content() + old(self).err_buffered()
                + progress_line_bytes(
                old(self).processed(),
                old(self).total(),
                old(self).pct() as nat,
            ),
            final(self).err_buffered() == restore_clear_bytes(),
    {
        let ghost pre = *self;
        // stderr needs to be flushed first, so that the progress report
        // line is cleared before we print more output
        self.stderr.flush();
        proof {
            lemma_skip_append(pre.stderr.out(), pre.stderr.buffered(), self.base_err@.len() as int);
            assert(self.stderr.out().subrange(0, self.base_err@.len() as int)
                =~= pre.stderr.out().subrange(0, self.base_err@.len() as int));
            assert(self.err_content() =~= pre.err_content() + pre.err_buffered());
        }
        let save = "\x1B7";
        let restore = "\x1B8";
        let clear = "\x1B[J";
        let head = "Files processed: ";
        proof {
            reveal_strlit("\x1B7");
            reveal_strlit("\x1B8");
            reveal_strlit("\x1B[J");
            reveal_strlit("Files processed: ");
            assert(vstd::string::is_ascii(save));
            assert(vstd::string::is_ascii(restore));
            assert(vstd::string::is_ascii(clear));
            assert(vstd::string::is_ascii(head));
        }
        let mut line = str_to_bytes(save);
        let headb = str_to_bytes(head);
        push_bytes(&mut line, &headb);
        let p = u64_to_dec(self.status.processed_no as u64);
        push_bytes(&mut line, &p);
        line.push(47);
        let t = u64_to_dec(self.status.total_no as u64);
        push_bytes(&mut line, &t);
        line.push(32);
        line.push(40);
        let pct = u64_to_dec(self.last_percent as u64);
        push_bytes(&mut line, &pct);
        line.push(37);
        line.push(41);
        proof {
            assert(line@ =~= progress_line_bytes(
                self.status.processed_no as nat,
                self.status.total_no as nat,
                self.last_percent as nat,
            ));
        }
        let ghost mid = *self;
        self.stderr.write_all(&line);
        // now we print the progress report
        self.stderr.flush();
        proof {
            lemma_skip_append(mid.stderr.out(), line@, self.base_err@.len() as int);
            assert(self.stderr.out().subrange(0, self.base_err@.len() as int)
                =~= mid.stderr.out().subrange(0, self.base_err@.len() as int));
            assert(self.err_content() =~= pre.err_content() + pre.err_buffered() + line@);
        }
        // we leave line clearing codes in the buffer for the next flush,
        // when we will want to print more output
        let mut tail = str_to_bytes(restore);
        let clearb = str_to_bytes(clear);
        push_bytes(&mut tail, &clearb);
        self.stderr.write_all(&tail);
        proof {
            assert(self.err_buffered() =~= restore_clear_bytes());
        }
    }
}

impl<O: ByteSink, E: ByteSink> RecordPrinter for ProgressiveRecordPrinter<O, E> {
    closed spec fn vis(&self) -> Seq<u8> {
        self.stdout.out().skip(self.base_out@.len() as int) + self.stdout.buffered()
    }

    closed spec fn diag(&self) -> Seq<u8> {
        self.diag_acc@
    }

    closed spec fn out_content(&self) -> Seq<u8> {
        self.stdout.out().skip(self.base_out@.len() as int)
    }

    closed spec fn err_done(&self) -> bool {
        self.stderr.buffered().len() == 0
    }

    closed spec fn inv(&self) -> bool {
        &&& self.base_out@.len() <= self.stdout.out().len()
        &&& self.stdout.out().subrange(0, self.base_out@.len() as int) == self.base_out@
        &&& self.base_err@.len() <= self.stderr.out().len()
        &&& self.stderr.out().subrange(0, self.base_err@.len() as int) == self.base_err@
        &&& self.status.processed_no <= self.status.total_no
        &&& self.last_percent <= 100
    }

    /// Progress policy: the counters take one `processed` step and the
    /// remaining hint; when the visible buffer stays under the threshold,
    /// the percentage is unchanged and the record has no diagnostics,
    /// nothing reaches the streams; otherwise everything visible is
    /// flushed, the diagnostics reach the error stream, and the progress
    /// line is redrawn there with the cursor-control sequences left
    /// buffered.
    fn print(&mut self, record: &OutputRecord, more: usize)
        ensures
            ({
                let counts = progressive_counts(
                    old(self).processed(),
                    old(self).total(),
                    more as nat,
                );
                let cur = percent_of(counts.0, counts.1);
                let pending = old(self).vis().len() - old(self).out_content().len()
                    + record.stdout@.len();
                &&& final(self).processed() == counts.0
                &&& final(self).total() == counts.1
                &&& (if pending < BYTES_PER_FLUSH as int && old(self).pct() == cur
                    && record.stderr@.len() == 0 {
                    &&& final(self).out_content() == old(self).out_content()
                    &&& final(self).err_content() == old(self).err_content()
                    &&& final(self).err_buffered() == old(self).err_buffered() + record.stderr@
                    &&& final(self).pct() == old(self).pct()
                } else {
                    &&& final(self).out_content() == final(self).vis()
                    &&& final(self).err_content() == old(self).err_content() + old(
                        self,
                    ).err_buffered() + record.stderr@ + progress_line_bytes(
                        counts.0,
                        counts.1,
                        cur as nat,
                    )
                    &&& final(self).err_buffered() == restore_clear_bytes()
                    &&& final(self).pct() == cur
                })
            }),
    {
        let ghost entry = *self;
        self.stdout.write_all(&record.stdout);
        self.stderr.write_all(&record.stderr);
        proof {
            self.diag_acc@ = self.diag_acc@ + record.stderr@;
            assert(self.vis() =~= old(self).vis() + record.stdout@);
        }
        if self.status.processed_no < usize::MAX {
            self.status.processed();
            if more <= usize::MAX - self.status.processed_no {
                self.status.estimate_more(more);
            }
        }
        proof {
            assert((self.status.processed_no as nat, self.status.total_no as nat)
                == progressive_counts(entry.processed(), entry.total(), more as nat));
            assert(self.status.total_no >= 1);
        }
        let cur_percent: u128 = (self.status.processed_no as u128) * 100
            / (self.status.total_no as u128);
        proof {
            let p = self.status.processed_no as int;
            let t = self.status.total_no as int;
            assert(cur_percent as int == (p * 100) / t);
            assert((p * 100) / t <= 100) by (nonlinear_arith)
                requires
                    0 <= p <= t,
                    1 <= t,
            ;
            assert(cur_percent as int == percent_of(
                self.status.processed_no as nat,
                self.status.total_no as nat,
            ));
        }
        if self.stdout.len() < BYTES_PER_FLUSH && self.last_percent == cur_percent
            && record.stderr.len() == 0 {
            proof {
                assert(self.err_buffered() =~= entry.err_buffered() + record.stderr@);
            }
            return;
        }
        self.last_percent = cur_percent;
        let ghost pre = *self;
        self.stderr.flush();
        self.stdout.flush();
        proof {
            lemma_skip_append(pre.stdout.out(), pre.stdout.buffered(), self.base_out@.len() as int);
            lemma_skip_append(pre.stderr.out(), pre.stderr.buffered(), self.base_err@.len() as int);
            assert(self.stdout.out().subrange(0, self.base_out@.len() as int)
                =~= pre.stdout.out().subrange(0, self.base_out@.len() as int));
            assert(self.stderr.out().subrange(0, self.base_err@.len() as int)
                =~= pre.stderr.out().subrange(0, self.base_err@.len() as int));
            assert(self.vis() =~= pre.vis());
            assert(self.out_content() =~= self.vis());
            assert(self.err_content() =~= entry.err_content() + entry.err_buffered()
                + record.stderr@);
        }
        self.redraw_progress();
    }

    /// After `finish`, the error stream additionally holds everything that
    /// was buffered for it, and the counters are untouched.
    fn finish(&mut self)
        ensures
            final(self).err_content() == old(self).err_content() + old(self).err_buffered(),
            final(self).err_buffered() == Seq::<u8>::empty(),
            final(self).processed() == old(self).processed(),
            final(self).total() == old(self).total(),
            final(self).pct() == old(self).pct(),
    {
        let ghost pre = *self;
        self.stdout.flush();
        self.stderr.flush();
        proof {
            lemma_skip_append(pre.stdout.out(), pre.stdout.buffered(), self.base_out@.len() as int);
            lemma_skip_append(pre.stderr.out(), pre.stderr.buffered(), self.base_err@.len() as int);
            assert(self.stdout.out().subrange(0, self.base_out@.len() as int)
                =~= pre.stdout.out().subrange(0, self.base_out@.len() as int));
            assert(self.stderr.out().subrange(0, self.base_err@.len() as int)
                =~= pre.stderr.out().subrange(0, self.base_err@.len() as int));
            assert(self.vis() =~= pre.vis());
            assert(self.out_content() =~= self.vis());
            assert(self.err_content() =~= pre.err_content() + pre.err_buffered());
        }
    }
}

} // verus!
