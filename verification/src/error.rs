//! How a command ends early, and the exit status that tells the calling shell.

use vstd::prelude::*;

verus! {

/// The exit status of a run that did what it was asked.
pub const EXIT_SUCCESS: i32 = 0;

/// The exit status of a run that failed.
pub const EXIT_FAILURE: i32 = 1;

/// The exit status of a run that the user gave up: the status that shells
/// give to a command ended by the interrupt key.
pub const EXIT_CANCELLED: i32 = 130;

/// Why a command cannot go on.
#[derive(Debug, PartialEq, Eq)]
pub enum CommandError {
    /// A selection was asked for and nothing is tracked.
    NoProjectsFound,
    /// A removal or a tag change was asked for and nothing is tracked.
    NoProjectsTracked,
    /// Tags were to be changed on a project whose path is gone.
    MissingProject,
    /// Tags were to be changed and no project was chosen.
    NoProjectsSelected,
    /// Tags were asked for and none was entered.
    NoTagsEntered,
    /// The path is not tracked.
    ProjectNotFound(String),
}

/// Why a command cannot go on, as plain mathematical values.
pub enum Failure {
    NoProjectsFound,
    NoProjectsTracked,
    MissingProject,
    NoProjectsSelected,
    NoTagsEntered,
    ProjectNotFound(Seq<char>),
}

impl View for CommandError {
    type V = Failure;

    open spec fn view(&self) -> Failure {
        match self {
            CommandError::NoProjectsFound => Failure::NoProjectsFound,
            CommandError::NoProjectsTracked => Failure::NoProjectsTracked,
            CommandError::MissingProject => Failure::MissingProject,
            CommandError::NoProjectsSelected => Failure::NoProjectsSelected,
            CommandError::NoTagsEntered => Failure::NoTagsEntered,
            CommandError::ProjectNotFound(path) => Failure::ProjectNotFound(path@),
        }
    }
}

/// The error in words, with the remedy where there is one.
pub open spec fn failure_text(failure: Failure) -> Seq<char> {
    match failure {
        Failure::NoProjectsFound => "No projects found. Add a project with: pj -a"@,
        Failure::NoProjectsTracked => "No projects tracked. Add a project with: pj -a"@,
        Failure::MissingProject => "Cannot manage tags for missing project"@,
        Failure::NoProjectsSelected => "No projects selected"@,
        Failure::NoTagsEntered => "No tags entered"@,
        Failure::ProjectNotFound(path) => "Project not found: "@ + path,
    }
}

impl CommandError {
    /// The error in words, with the remedy where there is one.
    pub fn message(&self) -> (m: String)
        ensures
            m@ == failure_text(self@),
    {
        match self {
            CommandError::NoProjectsFound => "No projects found. Add a project with: pj -a".to_owned(),
            CommandError::NoProjectsTracked => "No projects tracked. Add a project with: pj -a".to_owned(),
            CommandError::MissingProject => "Cannot manage tags for missing project".to_owned(),
            CommandError::NoProjectsSelected => "No projects selected".to_owned(),
            CommandError::NoTagsEntered => "No tags entered".to_owned(),
            CommandError::ProjectNotFound(path) => {
                let mut m = "Project not found: ".to_owned();
                m.append(path.as_str());
                m
            },
        }
    }
}

/// Why a command ends early: the user gave up, or it failed.
#[derive(Debug, PartialEq, Eq)]
pub enum Stop {
    /// The user gave up. This is no failure, and it is told apart from one
    /// by the exit status.
    Cancelled,
    /// The command failed.
    Failed(CommandError),
}

/// The exit status of a command that ended early.
pub open spec fn exit_code_of(stop: Stop) -> int {
    match stop {
        Stop::Cancelled => EXIT_CANCELLED as int,
        Stop::Failed(_) => EXIT_FAILURE as int,
    }
}

impl Stop {
    /// The exit status that tells the calling shell how the command ended.
    pub fn exit_code(&self) -> (code: i32)
        ensures
            code == exit_code_of(*self),
            code != EXIT_SUCCESS,
            code == EXIT_CANCELLED <==> *self is Cancelled,
    {
        match self {
            Stop::Cancelled => EXIT_CANCELLED,
            Stop::Failed(_) => EXIT_FAILURE,
        }
    }
}

} // verus!
