//! What became of one run of an outside program, as the caller saw it. A
//! tool that is missing or fails never ends a command: the readings of a run,
//! in `github` and in `commands::add`, know success and warnings only.

use vstd::prelude::*;

verus! {

/// What became of one run of an outside program.
#[derive(Debug, PartialEq, Eq)]
pub enum ToolRun {
    /// The program was not found.
    Missing,
    /// The program could not be started, for the reason given.
    NotStarted(String),
    /// The program ran and ended, with success or without, and wrote this to
    /// its error stream.
    Exited { success: bool, stderr: String },
}

/// What became of one run of an outside program, as plain mathematical values.
pub enum Run {
    Missing,
    NotStarted(Seq<char>),
    Exited { success: bool, stderr: Seq<char> },
}

impl View for ToolRun {
    type V = Run;

    open spec fn view(&self) -> Run {
        match self {
            ToolRun::Missing => Run::Missing,
            ToolRun::NotStarted(reason) => Run::NotStarted(reason@),
            ToolRun::Exited { success, stderr } => Run::Exited {
                success: *success,
                stderr: stderr@,
            },
        }
    }
}

/// The program ran and ended with success.
pub open spec fn succeeded(run: Run) -> bool {
    run matches Run::Exited { success, .. } && success
}

impl ToolRun {
    /// Whether the program ran and ended with success.
    pub fn is_success(&self) -> (r: bool)
        ensures
            r == succeeded(self@),
    {
        match self {
            ToolRun::Exited { success, .. } => *success,
            _ => false,
        }
    }
}

} // verus!
