//! The decisions around a GitHub remote: the questions that are settled
//! before one is created, and the reading of the `gh` tool's answer.

use crate::text::{contains, contains_text, trim, trimmed};
use crate::tools::{succeeded, Run, ToolRun};
use vstd::prelude::*;

verus! {

/// Who may see a repository that is created on GitHub.
#[derive(Debug, Clone, Copy, PartialEq, Eq, Structural)]
pub enum Visibility {
    Public,
    Private,
}

/// The flag that tells the `gh` tool the visibility.
pub open spec fn visibility_flag(visibility: Visibility) -> Seq<char> {
    match visibility {
        Visibility::Public => "--public"@,
        Visibility::Private => "--private"@,
    }
}

impl Visibility {
    /// The visibility behind a line of the menu "Public, Private": the first
    /// line is public, anything else private.
    pub fn from_selection(index: usize) -> (v: Visibility)
        ensures
            v == (if index == 0 {
                Visibility::Public
            } else {
                Visibility::Private
            }),
    {
        if index == 0 {
            Visibility::Public
        } else {
            Visibility::Private
        }
    }

    /// The flag that tells the `gh` tool the visibility.
    pub fn flag(&self) -> (r: &'static str)
        ensures
            r@ == visibility_flag(*self),
    {
        match self {
            Visibility::Public => "--public",
            Visibility::Private => "--private",
        }
    }
}

/// A question that is settled before a remote is created, in the order of asking.
#[derive(Debug, Clone, Copy, PartialEq, Eq, Structural)]
pub enum RemoteCheck {
    /// Is there a terminal on both ends, so that the user can be asked?
    Interactive,
    /// Is the `gh` tool installed?
    GhInstalled,
    /// Is the `gh` tool logged in?
    GhAuthenticated,
    /// Has the repository a remote `origin` already?
    RemoteOrigin,
}

/// Why no remote is created.
#[derive(Debug, Clone, Copy, PartialEq, Eq, Structural)]
pub enum SkipReason {
    /// Nobody is there to ask. This is no cause for a warning.
    NotInteractive,
    GhMissing,
    GhNotAuthenticated,
    RemoteExists,
}

/// What follows the answer to a question.
#[derive(Debug, Clone, Copy, PartialEq, Eq, Structural)]
pub enum RemoteStep {
    /// The next question is to be settled.
    Ask(RemoteCheck),
    /// No remote is created; the project is tracked all the same.
    Skip(SkipReason),
    /// The user is asked for the visibility and the remote is created.
    Create,
}

/// What follows the answer `yes` to the question `check`.
pub open spec fn step_after(check: RemoteCheck, yes: bool) -> RemoteStep {
    match check {
        RemoteCheck::Interactive => if yes {
            RemoteStep::Ask(RemoteCheck::GhInstalled)
        } else {
            RemoteStep::Skip(SkipReason::NotInteractive)
        },
        RemoteCheck::GhInstalled => if yes {
            RemoteStep::Ask(RemoteCheck::GhAuthenticated)
        } else {
            RemoteStep::Skip(SkipReason::GhMissing)
        },
        RemoteCheck::GhAuthenticated => if yes {
            RemoteStep::Ask(RemoteCheck::RemoteOrigin)
        } else {
            RemoteStep::Skip(SkipReason::GhNotAuthenticated)
        },
        RemoteCheck::RemoteOrigin => if yes {
            RemoteStep::Skip(SkipReason::RemoteExists)
        } else {
            RemoteStep::Create
        },
    }
}

/// The first step towards a remote: to find out whether the user can be asked.
pub fn first_step() -> (step: RemoteStep)
    ensures
        step == RemoteStep::Ask(RemoteCheck::Interactive),
{
    RemoteStep::Ask(RemoteCheck::Interactive)
}

/// The step that follows the answer `yes` to the question `check`.
pub fn next_step(check: RemoteCheck, yes: bool) -> (step: RemoteStep)
    ensures
        step == step_after(check, yes),
{
    match check {
        RemoteCheck::Interactive => if yes {
            RemoteStep::Ask(RemoteCheck::GhInstalled)
        } else {
            RemoteStep::Skip(SkipReason::NotInteractive)
        },
        RemoteCheck::GhInstalled => if yes {
            RemoteStep::Ask(RemoteCheck::GhAuthenticated)
        } else {
            RemoteStep::Skip(SkipReason::GhMissing)
        },
        RemoteCheck::GhAuthenticated => if yes {
            RemoteStep::Ask(RemoteCheck::RemoteOrigin)
        } else {
            RemoteStep::Skip(SkipReason::GhNotAuthenticated)
        },
        RemoteCheck::RemoteOrigin => if yes {
            RemoteStep::Skip(SkipReason::RemoteExists)
        } else {
            RemoteStep::Create
        },
    }
}

/// A remote is created exactly when the user can be asked, `gh` is installed
/// and logged in, and the repository has no remote `origin` yet.
pub proof fn lemma_remote_created(
    interactive: bool,
    installed: bool,
    authenticated: bool,
    has_origin: bool,
)
    ensures
        (step_after(RemoteCheck::Interactive, interactive) == RemoteStep::Ask(
            RemoteCheck::GhInstalled,
        ) && step_after(RemoteCheck::GhInstalled, installed) == RemoteStep::Ask(
            RemoteCheck::GhAuthenticated,
        ) && step_after(RemoteCheck::GhAuthenticated, authenticated) == RemoteStep::Ask(
            RemoteCheck::RemoteOrigin,
        ) && step_after(RemoteCheck::RemoteOrigin, has_origin) == RemoteStep::Create) <==> (
        interactive && installed && authenticated && !has_origin),
{
}

/// Why the user is warned after an attempt to create the repository. None of
/// these ends the command: the project is tracked all the same.
#[derive(Debug, PartialEq, Eq)]
pub enum CreationWarning {
    /// A repository of that name exists; the user is advised to choose
    /// another name, to delete the repository, or to link by hand.
    NameConflict,
    /// `gh` failed for another reason, given as its trimmed complaint.
    Failed(String),
    /// `gh` was not found.
    GhMissing,
    /// `gh` could not be started, for the reason given.
    NotStarted(String),
}

/// How an attempt to create the repository ended: it was created, or the
/// user is warned.
#[derive(Debug, PartialEq, Eq)]
pub enum CreationOutcome {
    Created,
    Warned(CreationWarning),
}

/// Why the user is warned, as plain mathematical values.
pub enum Warning {
    NameConflict,
    Failed(Seq<char>),
    GhMissing,
    NotStarted(Seq<char>),
}

/// How an attempt to create the repository ended, as plain mathematical values.
pub enum Creation {
    Created,
    Warned(Warning),
}

impl View for CreationWarning {
    type V = Warning;

    open spec fn view(&self) -> Warning {
        match self {
            CreationWarning::NameConflict => Warning::NameConflict,
            CreationWarning::Failed(complaint) => Warning::Failed(complaint@),
            CreationWarning::GhMissing => Warning::GhMissing,
            CreationWarning::NotStarted(reason) => Warning::NotStarted(reason@),
        }
    }
}

impl View for CreationOutcome {
    type V = Creation;

    open spec fn view(&self) -> Creation {
        match self {
            CreationOutcome::Created => Creation::Created,
            CreationOutcome::Warned(warning) => Creation::Warned(warning@),
        }
    }
}

/// `gh` complains that the name is taken.
pub open spec fn names_conflict(stderr: Seq<char>) -> bool {
    contains_text(stderr, "Name already exists"@) || contains_text(stderr, "already exists"@)
}

/// How an attempt ended, from what became of the run of `gh`. A run that
/// ended with success created the repository; every other run is a warning.
pub open spec fn creation_of(run: Run) -> Creation {
    match run {
        Run::Missing => Creation::Warned(Warning::GhMissing),
        Run::NotStarted(reason) => Creation::Warned(Warning::NotStarted(reason)),
        Run::Exited { success, stderr } => if success {
            Creation::Created
        } else if names_conflict(stderr) {
            Creation::Warned(Warning::NameConflict)
        } else {
            Creation::Warned(Warning::Failed(trimmed(stderr)))
        },
    }
}

/// Reads the end of an attempt to create the repository.
pub fn creation_outcome(run: &ToolRun) -> (r: CreationOutcome)
    ensures
        r@ == creation_of(run@),
        r@ is Created <==> succeeded(run@),
{
    match run {
        ToolRun::Missing => CreationOutcome::Warned(CreationWarning::GhMissing),
        ToolRun::NotStarted(reason) => CreationOutcome::Warned(
            CreationWarning::NotStarted(reason.clone()),
        ),
        ToolRun::Exited { success, stderr } => {
            if *success {
                CreationOutcome::Created
            } else if contains(stderr.as_str(), "Name already exists") || contains(
                stderr.as_str(),
                "already exists",
            ) {
                CreationOutcome::Warned(CreationWarning::NameConflict)
            } else {
                CreationOutcome::Warned(CreationWarning::Failed(trim(stderr.as_str())))
            }
        },
    }
}

/// A run of `gh` that did not end with success is a warning, whatever it was
/// and whatever it wrote; the repository counts as created on success only.
pub proof fn lemma_failure_only_warns(run: Run)
    ensures
        succeeded(run) <==> creation_of(run) is Created,
        !succeeded(run) <==> creation_of(run) is Warned,
{
}

} // verus!
