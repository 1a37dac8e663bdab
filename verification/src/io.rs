//! Output: record rendering, buffering and progress reporting.

pub mod color_codes;
pub mod line_status;
pub mod line_status_color_codes;
pub mod manual_buf_writer;
pub mod output_record;
pub mod print_diff;
pub mod progress_status;
pub mod record_printer;
pub mod read_int_mitigator;
