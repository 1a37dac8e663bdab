//! Color codes used to print diff lines of different statuses (see
//! `LineStatus`).

use vstd::prelude::*;

use crate::io::color_codes;
use crate::io::line_status::LineStatus;

verus! {

/// The escape sequences wrapped around each kind of diff line.
pub struct LineStatusColorCodes {
    pub deleted: Vec<u8>,
    pub added: Vec<u8>,
    pub modified: Vec<u8>,
    pub error: Vec<u8>,
    /// Resets the foreground color to its original value.
    pub reset: Vec<u8>,
}

/// The code a given status is wrapped in.
pub open spec fn code_of(codes: LineStatusColorCodes, status: LineStatus) -> Seq<u8> {
    match status {
        LineStatus::Deleted => codes.deleted@,
        LineStatus::Added => codes.added@,
        LineStatus::Modified => codes.modified@,
        LineStatus::Error => codes.error@,
        LineStatus::ErrorDescription => codes.error@,
    }
}

impl LineStatusColorCodes {
    /// Codes for plain output: everything empty.
    pub fn no_color() -> (r: LineStatusColorCodes)
        ensures
            r.deleted@ == Seq::<u8>::empty(),
            r.added@ == Seq::<u8>::empty(),
            r.modified@ == Seq::<u8>::empty(),
            r.error@ == Seq::<u8>::empty(),
            r.reset@ == Seq::<u8>::empty(),
    {
        let r = LineStatusColorCodes {
            deleted: Vec::new(),
            added: Vec::new(),
            modified: Vec::new(),
            error: Vec::new(),
            reset: Vec::new(),
        };
        proof {
            assert(r.deleted@ =~= Seq::<u8>::empty());
            assert(r.added@ =~= Seq::<u8>::empty());
            assert(r.modified@ =~= Seq::<u8>::empty());
            assert(r.error@ =~= Seq::<u8>::empty());
            assert(r.reset@ =~= Seq::<u8>::empty());
        }
        r
    }

    /// Codes for colored output.
    pub fn color() -> (r: LineStatusColorCodes)
        ensures
            r.deleted@ == color_codes::yellow_code(),
            r.added@ == color_codes::green_code(),
            r.modified@ == color_codes::blue_code(),
            r.error@ == color_codes::red_code(),
            r.reset@ == color_codes::reset_code(),
    {
        LineStatusColorCodes {
            deleted: color_codes::yellow(),
            added: color_codes::green(),
            modified: color_codes::blue(),
            error: color_codes::red(),
            reset: color_codes::reset(),
        }
    }

    /// The code for `status`.
    pub fn get(&self, status: LineStatus) -> (r: &Vec<u8>)
        ensures
            r@ == code_of(*self, status),
    {
        match status {
            LineStatus::Deleted => &self.deleted,
            LineStatus::Added => &self.added,
            LineStatus::Modified => &self.modified,
            LineStatus::Error => &self.error,
            LineStatus::ErrorDescription => &self.error,
        }
    }
}

} // verus!
