//! Compares two directory trees file by file.
//!
//! The crate is organized as a pull-chain: a sorted recursive directory
//! traversal produces relative paths, a merge-join pairs the paths of the
//! two trees, a verdict engine decides how each pair differs, and an output
//! layer renders the verdicts with buffering and progress reporting.
//! Directory listing, file reading and terminal writing are performed by the
//! embedding program, which feeds their results to the verified state
//! machines defined here.

use vstd::prelude::*;

pub mod bytes;
pub mod cli;
pub mod io;
pub mod iter;
pub mod rel_path;
pub mod verdict;
pub mod verdictor;

verus! {

/// Returns the crate version.
pub fn get_version() -> (r: String)
    ensures
        r@ == "0.1.0"@,
{
    "0.1.0".to_owned()
}

/// Whether any non-fatal error was reported along the way.
#[derive(Clone, Copy, Eq, PartialEq, Structural, Debug)]
pub enum ErrorStatus {
    NoErrors,
    SomeErrors,
}

/// Whether any difference between the trees was reported.
#[derive(Clone, Copy, Eq, PartialEq, Structural, Debug)]
pub enum DiffStatus {
    TreesSame,
    TreesDiff,
}

/// Result of one whole run.
pub enum ExecResult {
    NonFatal(ErrorStatus, DiffStatus),
    Fatal,
}

impl ExecResult {
    /// Convert `ExecResult` to a process exit code.
    pub fn exit_code(&self) -> (r: i32)
        ensures
            r == (match *self {
                ExecResult::NonFatal(ErrorStatus::NoErrors, DiffStatus::TreesSame) => 0int,
                ExecResult::NonFatal(ErrorStatus::NoErrors, DiffStatus::TreesDiff) => 1int,
                ExecResult::NonFatal(ErrorStatus::SomeErrors, DiffStatus::TreesSame) => 2int,
                ExecResult::NonFatal(ErrorStatus::SomeErrors, DiffStatus::TreesDiff) => 3int,
                ExecResult::Fatal => 4int,
            }),
    {
        match self {
            ExecResult::NonFatal(ErrorStatus::NoErrors, DiffStatus::TreesSame) => 0,
            ExecResult::NonFatal(ErrorStatus::NoErrors, DiffStatus::TreesDiff) => 1,
            ExecResult::NonFatal(ErrorStatus::SomeErrors, DiffStatus::TreesSame) => 2,
            ExecResult::NonFatal(ErrorStatus::SomeErrors, DiffStatus::TreesDiff) => 3,
            ExecResult::Fatal => 4,
        }
    }
}

/// Folds one verdict into the running error and difference summary: an
/// error verdict marks errors, any other non-`Same` verdict marks a
/// difference.
pub fn note_verdict(error_status: ErrorStatus, diff_status: DiffStatus, v: &verdict::Verdict) -> (r: (
    ErrorStatus,
    DiffStatus,
))
    ensures
        r.0 == (if *v matches verdict::Verdict::Error(_) {
            ErrorStatus::SomeErrors
        } else {
            error_status
        }),
        r.1 == (match *v {
            verdict::Verdict::Error(_) => diff_status,
            verdict::Verdict::Same => diff_status,
            _ => DiffStatus::TreesDiff,
        }),
{
    match v {
        verdict::Verdict::Error(_) => (ErrorStatus::SomeErrors, diff_status),
        verdict::Verdict::Same => (error_status, diff_status),
        _ => (error_status, DiffStatus::TreesDiff),
    }
}

/// Whether reporting continues past a verdict. With the brief flag set,
/// the first confirmed difference ends the report (errors and `Same` do
/// not end it); otherwise reporting always continues.
pub fn keep_printing(brief: bool, v: &verdict::Verdict) -> (r: bool)
    ensures
        r == (!brief || (*v matches verdict::Verdict::Error(_)) || *v == verdict::Verdict::Same),
{
    if brief {
        match v {
            verdict::Verdict::Error(_) => true,
            verdict::Verdict::Same => true,
            _ => false,
        }
    } else {
        true
    }
}

} // verus!
