//! Tests for the buffering writer, progress accounting and record layer.

use durduff::io::manual_buf_writer::ManualBufWriter;
use durduff::io::progress_status::ProgressStatus;
use durduff::io::line_status::LineStatus;
use durduff::io::line_status_color_codes::LineStatusColorCodes;
use durduff::io::output_record::OutputRecord;
use durduff::io::record_printer::PlainRecordPrinter;
use durduff::io::record_printer::ProgressiveRecordPrinter;
use durduff::io::record_printer::RecordPrinter;

#[test]
fn manual_buf_writer_rudimentary() {
    let mut writer = ManualBufWriter::new(Vec::<u8>::new(), 0);

    writer.write_all(&b"hello, friend".to_vec());

    assert_eq!(writer.inner.as_slice(), b"");

    writer.flush();

    assert_eq!(writer.inner.as_slice(), b"hello, friend");
}

#[test]
fn estimate_more() {
    let mut progress = ProgressStatus { processed_no: 7, total_no: 11 };

    progress.estimate_more(3);

    assert_eq!(progress.processed_no, 7);
    assert_eq!(progress.total_no, 11);

    progress.estimate_more(4);

    assert_eq!(progress.processed_no, 7);
    assert_eq!(progress.total_no, 11);

    progress.estimate_more(5);

    assert_eq!(progress.processed_no, 7);
    assert_eq!(progress.total_no, 12);

    progress.estimate_more(6);

    assert_eq!(progress.processed_no, 7);
    assert_eq!(progress.total_no, 13);

    progress.processed_no = 13;
    progress.estimate_more(1);

    assert_eq!(progress.processed_no, 13);
    assert_eq!(progress.total_no, 14);
}

#[test]
fn increment_total() {
    let mut progress = ProgressStatus { processed_no: 9, total_no: 11 };

    progress.processed();

    assert_eq!(progress.processed_no, 10);
    assert_eq!(progress.total_no, 11);

    progress.processed();

    assert_eq!(progress.processed_no, 11);
    assert_eq!(progress.total_no, 11);

    progress.processed();

    assert_eq!(progress.processed_no, 12);
    assert_eq!(progress.total_no, 12);

    progress.processed();

    assert_eq!(progress.processed_no, 13);
    assert_eq!(progress.total_no, 13);
}

#[test]
fn indicators() {
    assert_eq!(LineStatus::Deleted.indicator(), '-');
    assert_eq!(LineStatus::Added.indicator(), '+');
    assert_eq!(LineStatus::Modified.indicator(), '~');
    assert_eq!(LineStatus::Error.indicator(), '!');
    assert_eq!(LineStatus::ErrorDescription.indicator(), '^');
}

#[test]
fn color_code_table() {
    let colored = LineStatusColorCodes::color();
    assert_eq!(colored.get(LineStatus::Deleted).as_slice(), b"\x1B[33m");
    assert_eq!(colored.get(LineStatus::Added).as_slice(), b"\x1B[32m");
    assert_eq!(colored.get(LineStatus::Modified).as_slice(), b"\x1B[34m");
    assert_eq!(colored.get(LineStatus::Error).as_slice(), b"\x1B[31m");
    assert_eq!(colored.get(LineStatus::ErrorDescription).as_slice(), b"\x1B[31m");
    assert_eq!(colored.reset.as_slice(), b"\x1B[39m");

    let plain = LineStatusColorCodes::no_color();
    assert_eq!(plain.get(LineStatus::Deleted).as_slice(), b"");
    assert_eq!(plain.reset.as_slice(), b"");
}

#[test]
fn plain_printer_buffers_until_finish() {
    let mut printer = PlainRecordPrinter::new(Vec::<u8>::new(), Vec::<u8>::new());

    let record = OutputRecord { stdout: b"+ b\n".to_vec(), stderr: Vec::new() };
    printer.print(&record, 0);
    printer.finish();

    let (out, err) = printer.into_streams();
    assert_eq!(out.as_slice(), b"+ b\n");
    assert_eq!(err.as_slice(), b"");
}

#[test]
fn plain_printer_flushes_diagnostics_promptly() {
    let mut printer = PlainRecordPrinter::new(Vec::<u8>::new(), Vec::<u8>::new());

    let record = OutputRecord { stdout: b"! x\n".to_vec(), stderr: b"^ file not found\n".to_vec() };
    printer.print(&record, 0);

    // diagnostics force a flush even before finish
    let (out, err) = printer.into_streams();
    assert_eq!(out.as_slice(), b"! x\n");
    assert_eq!(err.as_slice(), b"^ file not found\n");
}

#[test]
fn progressive_printer_draws_progress_line() {
    let mut printer = ProgressiveRecordPrinter::new(Vec::<u8>::new(), Vec::<u8>::new(), 2);

    let record = OutputRecord { stdout: b"~ x\n".to_vec(), stderr: b"^ invalid data\n".to_vec() };
    printer.print(&record, 1);
    printer.finish();

    let (out, err) = printer.into_streams();
    assert_eq!(out.as_slice(), b"~ x\n");
    // diagnostics first, then the saved-cursor progress line, then the
    // cursor restore and clear-below sequences left for the final flush
    assert_eq!(
        err.as_slice(),
        b"^ invalid data\n\x1B7Files processed: 1/2 (50%)\x1B8\x1B[J".as_slice(),
    );
}

#[test]
fn plain_printer_defers_small_records() {
    let mut printer = PlainRecordPrinter::new(Vec::<u8>::new(), Vec::<u8>::new());

    let record = OutputRecord { stdout: b"+ b\n".to_vec(), stderr: Vec::new() };
    printer.print(&record, 0);

    // under the threshold and without diagnostics, nothing reaches the
    // streams before finish
    let (out, err) = printer.into_streams();
    assert_eq!(out.as_slice(), b"");
    assert_eq!(err.as_slice(), b"");
}

#[test]
fn progressive_printer_suppresses_unchanged_percent() {
    let mut printer = ProgressiveRecordPrinter::new(Vec::<u8>::new(), Vec::<u8>::new(), 200);

    // one empty record out of two hundred leaves the percentage at zero:
    // nothing is flushed and no progress line is drawn
    printer.print(&OutputRecord::empty(), 198);

    let (out, err) = printer.into_streams();
    assert_eq!(out.as_slice(), b"");
    assert_eq!(err.as_slice(), b"");
}
