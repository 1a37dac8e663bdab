//! Verdicts: how a single path differs between the two trees.

use vstd::prelude::*;

verus! {

/// Classification of an I/O failure, as far as the diff engine cares about it.
#[derive(Copy, Clone, PartialEq, Eq, Structural, Debug)]
pub enum ErrorKind {
    NotFound,
    PermissionDenied,
    Interrupted,
    InvalidData,
    Other,
}

/// What kind of filesystem object a path denotes, as far as the diff
/// engine distinguishes them (metadata is read without following symlinks).
#[derive(Copy, Clone, PartialEq, Eq, Structural, Debug)]
pub enum FileKind {
    Dir,
    File,
    Symlink,
    Other,
}

/// Verdict (whether a file is changed)
#[derive(Copy, Clone, PartialEq, Eq, Structural, Debug)]
pub enum Verdict {
    Same,
    Deleted,
    Added,
    Modified,
    Error(ErrorKind),
}

} // verus!
