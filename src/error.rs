//! The configuration errors that end a run.

use vstd::prelude::*;

verus! {

/// Why a run stops before launching anything.
#[derive(Clone, Copy, Debug, PartialEq, Eq)]
pub enum LaunchError {
    /// Neither the user's data home nor their home directory is known.
    NoHomeDirectory,
    /// The picker's invocation string does not tokenize to a program.
    InvalidPicker,
    /// The chosen line matches no entry and does not tokenize to a program.
    InvalidCommand,
    /// The terminal template lacks the `{}` placeholder.
    InvalidTerminal,
    /// The chosen entry's command line does not tokenize to a program.
    InvalidExec,
}

} // verus!
