//! What is known of an outside process that was run.

use vstd::prelude::*;
use vstd::string::*;

use crate::text;

verus! {

/// A process that was run to its end, or that could not be started.
#[derive(Debug, PartialEq, Eq)]
pub enum ProcessRun {
    /// The program could not be started
    NotStarted,
    /// The program ran
    Finished {
        /// Whether it reported success
        success: bool,
        /// Its exit code, unless a signal ended it
        code: Option<i32>,
        /// What it wrote to its output
        stdout: String,
        /// What it wrote to its error output
        stderr: String,
    },
}

/// The exit code of a process, or -1 where a signal ended it.
pub open spec fn exit_code(code: Option<i32>) -> int {
    match code {
        Some(c) => c as int,
        None => -1,
    }
}

/// The message of a run whose output was put on the clipboard.
pub open spec fn success_message(files: nat) -> Seq<char> {
    text::decimal(files) + " files processed and copied to clipboard"@
}

/// The exit code of a process, or -1 where a signal ended it.
pub fn exit_code_of(code: Option<i32>) -> (r: i32)
    ensures
        r == exit_code(code),
{
    match code {
        Some(c) => c,
        None => -1,
    }
}

/// The message of a run whose output was put on the clipboard.
pub fn processed_message(files: usize) -> (r: String)
    ensures
        r@ == success_message(files as nat),
{
    let n = text::decimal_text(files as u128);
    text::concat2(n.as_str(), " files processed and copied to clipboard")
}

} // verus!
