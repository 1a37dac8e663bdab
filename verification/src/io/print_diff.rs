//! Turning verdicts into printable records.

use vstd::prelude::*;

use crate::verdict::ErrorKind;
use crate::bytes::ascii_bytes;
use crate::bytes::copy_bytes;
use crate::bytes::push_bytes;
use crate::bytes::str_to_bytes;
use crate::io::line_status::LineStatus;
use crate::io::line_status::indicator_of;
use crate::io::line_status_color_codes::LineStatusColorCodes;
use crate::io::line_status_color_codes::code_of;
use crate::io::output_record::OutputRecord;
use crate::io::record_printer::RecordPrinter;
use crate::verdict::Verdict;

verus! {

/// Returns a human-readable string describing `ek`.
pub fn fmt_error_kind(ek: ErrorKind) -> (r: &'static str)
    ensures
        r@ == (match ek {
            ErrorKind::NotFound => "file not found"@,
            ErrorKind::PermissionDenied => "permission denied"@,
            ErrorKind::Interrupted => "file reading was interrupted"@,
            ErrorKind::InvalidData => "invalid data"@,
            ErrorKind::Other => "unexpected error"@,
        }),
{
    match ek {
        ErrorKind::NotFound => "file not found",
        ErrorKind::PermissionDenied => "permission denied",
        ErrorKind::Interrupted => "file reading was interrupted",
        ErrorKind::InvalidData => "invalid data",
        ErrorKind::Other => "unexpected error",
    }
}

/// What `String::from_utf8_lossy` decodes the given bytes to.
pub uninterp spec fn utf8_lossy(b: Seq<u8>) -> Seq<char>;

/// Relies on `String::from_utf8_lossy`: the result is a function of the
/// bytes alone; valid UTF-8 decodes unchanged and invalid sequences become
/// replacement characters.
#[verifier::external_body]
fn lossy_utf8_str(b: &Vec<u8>) -> (r: String)
    ensures
        r@ == utf8_lossy(b@),
{
    String::from_utf8_lossy(b.as_slice()).into_owned()
}

/// What `percent_encoding::utf8_percent_encode` with the `CONTROLS` set
/// produces, as UTF-8 bytes.
pub uninterp spec fn pct_controls(s: Seq<char>) -> Seq<u8>;

/// Relies on `percent_encoding::utf8_percent_encode` with the `CONTROLS`
/// set: the result is a function of the characters alone; control bytes and
/// non-ASCII bytes of their UTF-8 form are written as %XX escapes.
#[verifier::external_body]
fn percent_encode_controls(s: &str) -> (r: Vec<u8>)
    ensures
        r@ == pct_controls(s@),
{
    percent_encoding::utf8_percent_encode(s, percent_encoding::CONTROLS).to_string().into_bytes()
}

/// The display form of a path's raw bytes: lossy UTF-8 decoding followed by
/// percent-encoding of control characters.
pub open spec fn encoded_path_bytes(b: Seq<u8>) -> Seq<u8> {
    pct_controls(utf8_lossy(b))
}

/// UTF-8 percent-encodes `path` for display.
pub fn utf8_percent_encode_path(path: &Vec<u8>) -> (r: Vec<u8>)
    ensures
        r@ == encoded_path_bytes(path@),
{
    let s = lossy_utf8_str(path);
    percent_encode_controls(s.as_str())
}



/// The words describing each error kind.
pub open spec fn error_text(ek: ErrorKind) -> Seq<char> {
    match ek {
        ErrorKind::NotFound => "file not found"@,
        ErrorKind::PermissionDenied => "permission denied"@,
        ErrorKind::Interrupted => "file reading was interrupted"@,
        ErrorKind::InvalidData => "invalid data"@,
        ErrorKind::Other => "unexpected error"@,
    }
}

/// Determines how records are printed.
pub struct OutputSetup {
    pub color_codes: LineStatusColorCodes,
    pub line_terminator: Vec<u8>,
}

/// One rendered line: color code, indicator, space, the blob, color reset
/// and the line terminator.
pub open spec fn spec_wrap_blob(
    codes: LineStatusColorCodes,
    term: Seq<u8>,
    status: LineStatus,
    blob: Seq<u8>,
) -> Seq<u8> {
    code_of(codes, status) + seq![indicator_of(status) as u8, 32u8] + blob + codes.reset@ + term
}

/// Converts `(status, blob)` into the visible (or diagnostic) part of an
/// `OutputRecord`.
///
/// `blob` is either a path serialized into a sequence of bytes (whichever
/// serialization schema was chosen) or an error message encoded with
/// UTF-8; this function treats both the same.
pub fn wrap_blob_in_record(setup: &OutputSetup, status: LineStatus, blob: &Vec<u8>) -> (r: Vec<u8>)
    ensures
        r@ == spec_wrap_blob(setup.color_codes, setup.line_terminator@, status, blob@),
{
    let mut r = copy_bytes(setup.color_codes.get(status));
    r.push(status.indicator_byte());
    r.push(32);
    push_bytes(&mut r, blob);
    push_bytes(&mut r, &setup.color_codes.reset);
    push_bytes(&mut r, &setup.line_terminator);
    proof {
        assert(r@ =~= spec_wrap_blob(setup.color_codes, setup.line_terminator@, status, blob@));
    }
    r
}

/// The diagnostic line of an error record.
pub open spec fn spec_error_stderr(codes: LineStatusColorCodes, term: Seq<u8>, ek: ErrorKind) -> Seq<
    u8,
> {
    spec_wrap_blob(codes, term, LineStatus::ErrorDescription, ascii_bytes(error_text(ek)))
}

/// Converts `ek` into the diagnostic part of an `OutputRecord`.
pub fn error_kind_to_stderr_record(setup: &OutputSetup, ek: ErrorKind) -> (r: Vec<u8>)
    ensures
        r@ == spec_error_stderr(setup.color_codes, setup.line_terminator@, ek),
{
    let msg = fmt_error_kind(ek);
    proof {
        reveal_strlit("file not found");
        reveal_strlit("permission denied");
        reveal_strlit("file reading was interrupted");
        reveal_strlit("invalid data");
        reveal_strlit("unexpected error");
        assert(vstd::string::is_ascii(msg));
    }
    let blob = str_to_bytes(msg);
    wrap_blob_in_record(setup, LineStatus::ErrorDescription, &blob)
}

/// The line status a non-`Same` verdict is rendered with.
pub open spec fn status_of_verdict(v: Verdict) -> LineStatus {
    match v {
        Verdict::Same => LineStatus::Modified,  // never rendered
        Verdict::Deleted => LineStatus::Deleted,
        Verdict::Added => LineStatus::Added,
        Verdict::Modified => LineStatus::Modified,
        Verdict::Error(_) => LineStatus::Error,
    }
}

/// Converts `(verdict, blob)` into an `OutputRecord`: one visible line,
/// plus one diagnostic line for error verdicts.
///
/// `blob` is the path serialized into a byte sequence; no assumption is
/// made about the serialization schema.
pub fn verdict_and_blob_to_output_record(setup: &OutputSetup, verdict: Verdict, blob: &Vec<u8>) -> (r:
    OutputRecord)
    requires
        verdict != Verdict::Same,
    ensures
        r.stdout@ == spec_wrap_blob(
            setup.color_codes,
            setup.line_terminator@,
            status_of_verdict(verdict),
            blob@,
        ),
        r.stderr@ == (match verdict {
            Verdict::Error(ek) => spec_error_stderr(setup.color_codes, setup.line_terminator@, ek),
            _ => Seq::<u8>::empty(),
        }),
{
    let mut stderr: Vec<u8> = Vec::new();
    let status = match verdict {
        Verdict::Same => LineStatus::Modified,  // excluded by the caller
        Verdict::Deleted => LineStatus::Deleted,
        Verdict::Added => LineStatus::Added,
        Verdict::Modified => LineStatus::Modified,
        Verdict::Error(ek) => {
            stderr = error_kind_to_stderr_record(setup, ek);
            LineStatus::Error
        },
    };
    let stdout = wrap_blob_in_record(setup, status, blob);
    proof {
        if !(verdict matches Verdict::Error(_)) {
            assert(stderr@ =~= Seq::<u8>::empty());
        }
    }
    OutputRecord { stdout, stderr }
}

/// The visible part of the record for one `(verdict, path)` outcome.
pub open spec fn spec_record_vis(
    codes: LineStatusColorCodes,
    term: Seq<u8>,
    raw: bool,
    v: Verdict,
    path: Seq<u8>,
) -> Seq<u8> {
    if v == Verdict::Same {
        Seq::<u8>::empty()
    } else {
        spec_wrap_blob(
            codes,
            term,
            status_of_verdict(v),
            if raw {
                path
            } else {
                encoded_path_bytes(path)
            },
        )
    }
}

/// The diagnostic part of the record for one `(verdict, path)` outcome.
pub open spec fn spec_record_diag(codes: LineStatusColorCodes, term: Seq<u8>, v: Verdict) -> Seq<
    u8,
> {
    match v {
        Verdict::Error(ek) => spec_error_stderr(codes, term, ek),
        _ => Seq::<u8>::empty(),
    }
}

/// Converts `(verdict, path)` into an `OutputRecord`; the path is
/// UTF-8 percent-encoded.
pub fn verdict_and_path_to_percent_output_record(setup: &OutputSetup, verdict: Verdict, path: &Vec<
    u8,
>) -> (r: OutputRecord)
    ensures
        r.stdout@ == spec_record_vis(
            setup.color_codes,
            setup.line_terminator@,
            false,
            verdict,
            path@,
        ),
        r.stderr@ == (if verdict == Verdict::Same {
            Seq::<u8>::empty()
        } else {
            spec_record_diag(setup.color_codes, setup.line_terminator@, verdict)
        }),
{
    if matches!(verdict, Verdict::Same) {
        OutputRecord::empty()
    } else {
        let percent_path = utf8_percent_encode_path(path);
        verdict_and_blob_to_output_record(setup, verdict, &percent_path)
    }
}

/// Converts `(verdict, path)` into an `OutputRecord`; the path is
/// serialized into its underlying raw byte representation.
pub fn verdict_and_path_to_raw_output_record(setup: &OutputSetup, verdict: Verdict, path: &Vec<
    u8,
>) -> (r: OutputRecord)
    ensures
        r.stdout@ == spec_record_vis(
            setup.color_codes,
            setup.line_terminator@,
            true,
            verdict,
            path@,
        ),
        r.stderr@ == (if verdict == Verdict::Same {
            Seq::<u8>::empty()
        } else {
            spec_record_diag(setup.color_codes, setup.line_terminator@, verdict)
        }),
{
    if matches!(verdict, Verdict::Same) {
        OutputRecord::empty()
    } else {
        verdict_and_blob_to_output_record(setup, verdict, path)
    }
}

/// The concatenated visible parts of a record sequence.
pub open spec fn concat_vis(rs: Seq<OutputRecord>) -> Seq<u8>
    decreases rs.len(),
{
    if rs.len() == 0 {
        Seq::<u8>::empty()
    } else {
        concat_vis(rs.drop_last()) + rs.last().stdout@
    }
}

/// The concatenated diagnostic parts of a record sequence.
pub open spec fn concat_diag(rs: Seq<OutputRecord>) -> Seq<u8>
    decreases rs.len(),
{
    if rs.len() == 0 {
        Seq::<u8>::empty()
    } else {
        concat_diag(rs.drop_last()) + rs.last().stderr@
    }
}

/// Prints `records` using `record_printer`: afterwards every visible byte
/// stands at the visible stream, in order, and every diagnostic byte has
/// been accepted by the diagnostic stream.
#[verifier::loop_isolation(false)]
pub fn print_all_records<P: RecordPrinter>(records: Vec<OutputRecord>, record_printer: &mut P)
    requires
        old(record_printer).inv(),
    ensures
        final(record_printer).inv(),
        final(record_printer).vis() == old(record_printer).vis() + concat_vis(records@),
        final(record_printer).diag() == old(record_printer).diag() + concat_diag(records@),
        final(record_printer).out_content() == final(record_printer).vis(),
        final(record_printer).err_done(),
{
    let mut i: usize = 0;
    proof {
        assert(record_printer.vis() =~= old(record_printer).vis() + concat_vis(
            records@.subrange(0, 0),
        ));
        assert(record_printer.diag() =~= old(record_printer).diag() + concat_diag(
            records@.subrange(0, 0),
        ));
    }
    while i < records.len()
        invariant
            i <= records.len(),
            record_printer.inv(),
            record_printer.vis() == old(record_printer).vis() + concat_vis(
                records@.subrange(0, i as int),
            ),
            record_printer.diag() == old(record_printer).diag() + concat_diag(
                records@.subrange(0, i as int),
            ),
        decreases records.len() - i,
    {
        let more = records.len() - i - 1;
        record_printer.print(&records[i], more);
        proof {
            let upto = records@.subrange(0, i + 1 as int);
            assert(upto.drop_last() =~= records@.subrange(0, i as int));
            assert(upto.last() == records@[i as int]);
            assert(record_printer.vis() =~= old(record_printer).vis() + concat_vis(upto));
            assert(record_printer.diag() =~= old(record_printer).diag() + concat_diag(upto));
        }
        i = i + 1;
    }
    proof {
        assert(records@.subrange(0, records@.len() as int) =~= records@);
    }
    record_printer.finish();
}

/// The whole visible output of a diff, record by record.
pub open spec fn spec_diff_vis(
    codes: LineStatusColorCodes,
    term: Seq<u8>,
    raw: bool,
    items: Seq<(Verdict, Vec<u8>)>,
) -> Seq<u8>
    decreases items.len(),
{
    if items.len() == 0 {
        Seq::<u8>::empty()
    } else {
        spec_diff_vis(codes, term, raw, items.drop_last()) + spec_record_vis(
            codes,
            term,
            raw,
            items.last().0,
            items.last().1@,
        )
    }
}

/// The whole diagnostic output of a diff, record by record.
pub open spec fn spec_diff_diag(
    codes: LineStatusColorCodes,
    term: Seq<u8>,
    items: Seq<(Verdict, Vec<u8>)>,
) -> Seq<u8>
    decreases items.len(),
{
    if items.len() == 0 {
        Seq::<u8>::empty()
    } else {
        spec_diff_diag(codes, term, items.drop_last()) + (if items.last().0 == Verdict::Same {
            Seq::<u8>::empty()
        } else {
            spec_record_diag(codes, term, items.last().0)
        })
    }
}

/// The line terminator for the chosen mode: NUL for raw output, newline
/// otherwise.
pub open spec fn term_of(nul_terminated: bool) -> Seq<u8> {
    if nul_terminated {
        seq![0u8]
    } else {
        seq![10u8]
    }
}

/// Print diff from `verdicts` as specified by the configuration: every
/// non-`Same` verdict becomes one visible line (`Same` only drives the
/// progress accounting), error verdicts additionally one diagnostic line,
/// and everything is flushed at the end.
#[verifier::loop_isolation(false)]
pub fn print_diff<P: RecordPrinter>(
    verdicts: Vec<(Verdict, Vec<u8>)>,
    record_printer: &mut P,
    color_codes: LineStatusColorCodes,
    nul_terminated: bool,
)
    requires
        old(record_printer).inv(),
    ensures
        final(record_printer).inv(),
        final(record_printer).vis() == old(record_printer).vis() + spec_diff_vis(
            color_codes,
            term_of(nul_terminated),
            nul_terminated,
            verdicts@,
        ),
        final(record_printer).diag() == old(record_printer).diag() + spec_diff_diag(
            color_codes,
            term_of(nul_terminated),
            verdicts@,
        ),
        final(record_printer).out_content() == final(record_printer).vis(),
        final(record_printer).err_done(),
{
    let mut line_terminator: Vec<u8> = Vec::new();
    if nul_terminated {
        line_terminator.push(0);
    } else {
        line_terminator.push(10);
    }
    proof {
        assert(line_terminator@ =~= term_of(nul_terminated));
    }
    let output_setup = OutputSetup { color_codes, line_terminator };
    let mut records: Vec<OutputRecord> = Vec::new();
    let mut i: usize = 0;
    while i < verdicts.len()
        invariant
            i <= verdicts.len(),
            records@.len() == i,
            output_setup.color_codes == color_codes,
            output_setup.line_terminator@ == term_of(nul_terminated),
            concat_vis(records@) == spec_diff_vis(
                color_codes,
                term_of(nul_terminated),
                nul_terminated,
                verdicts@.subrange(0, i as int),
            ),
            concat_diag(records@) == spec_diff_diag(
                color_codes,
                term_of(nul_terminated),
                verdicts@.subrange(0, i as int),
            ),
        decreases verdicts.len() - i,
    {
        let ghost prev = records@;
        let record = if nul_terminated {
            verdict_and_path_to_raw_output_record(&output_setup, verdicts[i].0, &verdicts[i].1)
        } else {
            verdict_and_path_to_percent_output_record(&output_setup, verdicts[i].0, &verdicts[i].1)
        };
        records.push(record);
        proof {
            let upto = verdicts@.subrange(0, i + 1 as int);
            assert(upto.drop_last() =~= verdicts@.subrange(0, i as int));
            assert(upto.last() == verdicts@[i as int]);
            assert(records@.drop_last() =~= prev);
            assert(concat_vis(records@) =~= spec_diff_vis(
                color_codes,
                term_of(nul_terminated),
                nul_terminated,
                upto,
            ));
            assert(concat_diag(records@) =~= spec_diff_diag(
                color_codes,
                term_of(nul_terminated),
                upto,
            ));
        }
        i = i + 1;
    }
    proof {
        assert(verdicts@.subrange(0, verdicts@.len() as int) =~= verdicts@);
    }
    print_all_records(records, record_printer);
}

} // verus!
