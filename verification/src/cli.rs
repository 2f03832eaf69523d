//! The command surface of the lint tool: its arguments and the dispatch
//! of a chosen command over file content already read into memory.
//!
//! Reading the file, parsing the command line, and printing the findings
//! stay outside the library.

use vstd::prelude::*;

use crate::lint::{analyze, lint_input_ok, spec_analyze, CheckOpts, Finding};

verus! {

/// The command to run.
#[derive(Debug, Clone, Copy, PartialEq, Eq, Structural)]
pub enum Command {
    /// Check the input for potential mistakes.
    Check(CheckOpts),
}

/// The tool's arguments: the path of the input file and the command.
#[derive(Debug, Clone, PartialEq, Eq)]
pub struct Args {
    /// Path to the input file.
    pub infile: String,
    /// Command to use.
    pub command: Command,
}

/// Runs the chosen command over the file content and returns its
/// findings.
///
/// The input must be such that every transaction line carries a real
/// calendar date; `crate::lint::tx_dates_valid` tests exactly that.
pub fn exec(content: &[char], cmd: &Command) -> (r: Vec<Finding>)
    requires
        lint_input_ok(content@),
    ensures
        match *cmd {
            Command::Check(opts) => r@ == spec_analyze(content@, opts),
        },
{
    match cmd {
        Command::Check(opts) => analyze(content, opts),
    }
}

} // verus!
