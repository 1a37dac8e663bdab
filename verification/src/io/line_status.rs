//! The status of a diff line.

use vstd::prelude::*;

verus! {

/// There is a one-to-one correspondence between `LineStatus` and the
/// one-character indicator printed at the beginning of each line, as well
/// as the color the line is printed with (if the output is colored).
#[derive(Copy, Clone)]
pub enum LineStatus {
    Deleted,
    Added,
    Modified,
    Error,
    ErrorDescription,
}

/// The indicator character of each status.
pub open spec fn indicator_of(s: LineStatus) -> char {
    match s {
        LineStatus::Deleted => '-',
        LineStatus::Added => '+',
        LineStatus::Modified => '~',
        LineStatus::Error => '!',
        LineStatus::ErrorDescription => '^',
    }
}

impl LineStatus {
    /// The one-character indicator of this status.
    pub fn indicator(self) -> (r: char)
        ensures
            r == indicator_of(self),
    {
        match self {
            LineStatus::Deleted => '-',
            LineStatus::Added => '+',
            LineStatus::Modified => '~',
            LineStatus::Error => '!',
            LineStatus::ErrorDescription => '^',
        }
    }

    /// The indicator as its ASCII byte.
    pub fn indicator_byte(self) -> (r: u8)
        ensures
            r == indicator_of(self) as u8,
    {
        match self {
            LineStatus::Deleted => 45,
            LineStatus::Added => 43,
            LineStatus::Modified => 126,
            LineStatus::Error => 33,
            LineStatus::ErrorDescription => 94,
        }
    }
}

} // verus!
