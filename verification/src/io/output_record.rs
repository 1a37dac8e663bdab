//! Single record of diff output.
//!
//! Output naturally splits into records, each consisting of a visible part
//! (the diff line, suitable for parsing) and a diagnostic part (details
//! about errors indicated with "!"; each "!" line is paired with a "^"
//! line). The diagnostic part is empty for records of other statuses.

use vstd::prelude::*;

verus! {

/// One unit of printable output.
pub struct OutputRecord {
    pub stdout: Vec<u8>,
    pub stderr: Vec<u8>,
}

impl OutputRecord {
    /// Empty record
    ///
    /// Should be passed to `RecordPrinter::print` whenever both files are
    /// the same, to provide accurate (and frequent enough) progress
    /// reports.
    pub fn empty() -> (r: OutputRecord)
        ensures
            r.stdout@ == Seq::<u8>::empty(),
            r.stderr@ == Seq::<u8>::empty(),
    {
        let r = OutputRecord { stdout: Vec::new(), stderr: Vec::new() };
        proof {
            assert(r.stdout@ =~= Seq::<u8>::empty());
            assert(r.stderr@ =~= Seq::<u8>::empty());
        }
        r
    }
}

} // verus!
