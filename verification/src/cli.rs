//! The configuration handed in by the command line layer.

use vstd::prelude::*;

verus! {

/// Cli option deciding when to print tty-enabled (e.g. colored) output
#[derive(Clone, Copy, Debug)]
pub enum TtyEnabledOutput {
    /// suppress tty-enabled output
    Never,
    /// force tty-enabled output
    Always,
    /// print tty-enabled output if and only if stdout/stderr is attached
    /// to a tty
    Auto,
}

/// Result of successfully parsing CLI args
#[derive(Debug)]
pub struct CliArgs {
    pub brief: bool,
    pub nul_terminated: bool,
    pub color: TtyEnabledOutput,
    pub progress: TtyEnabledOutput,
    pub block_size: Option<usize>,
    /// Raw bytes of the left ("old") tree root path.
    pub old_dir: Vec<u8>,
    /// Raw bytes of the right ("new") tree root path.
    pub new_dir: Vec<u8>,
}

/// Resolves a tri-state output setting against whether the respective
/// stream is an interactive terminal.
pub fn resolve_tty_enabled(setting: TtyEnabledOutput, is_tty: bool) -> (r: bool)
    ensures
        r == (match setting {
            TtyEnabledOutput::Never => false,
            TtyEnabledOutput::Always => true,
            TtyEnabledOutput::Auto => is_tty,
        }),
{
    match setting {
        TtyEnabledOutput::Never => false,
        TtyEnabledOutput::Always => true,
        TtyEnabledOutput::Auto => is_tty,
    }
}

} // verus!
