use pj::github::{
    creation_outcome, first_step, next_step, CreationOutcome, CreationWarning, RemoteCheck,
    RemoteStep, SkipReason, Visibility,
};
use pj::tools::ToolRun;

fn exited(success: bool, stderr: &str) -> ToolRun {
    ToolRun::Exited { success, stderr: stderr.to_string() }
}

#[test]
fn visibility_follows_the_menu() {
    assert_eq!(Visibility::from_selection(0), Visibility::Public);
    assert_eq!(Visibility::from_selection(1), Visibility::Private);
    assert_eq!(Visibility::from_selection(2), Visibility::Private);
    assert_eq!(Visibility::from_selection(usize::MAX), Visibility::Private);
}

#[test]
fn visibility_has_a_flag() {
    assert_eq!(Visibility::Public.flag(), "--public");
    assert_eq!(Visibility::Private.flag(), "--private");
}

#[test]
fn a_remote_is_created_when_every_check_passes() {
    assert_eq!(first_step(), RemoteStep::Ask(RemoteCheck::Interactive));
    assert_eq!(next_step(RemoteCheck::Interactive, true), RemoteStep::Ask(RemoteCheck::GhInstalled));
    assert_eq!(
        next_step(RemoteCheck::GhInstalled, true),
        RemoteStep::Ask(RemoteCheck::GhAuthenticated)
    );
    assert_eq!(
        next_step(RemoteCheck::GhAuthenticated, true),
        RemoteStep::Ask(RemoteCheck::RemoteOrigin)
    );
    assert_eq!(next_step(RemoteCheck::RemoteOrigin, false), RemoteStep::Create);
}

#[test]
fn a_failed_check_skips_the_remote() {
    assert_eq!(
        next_step(RemoteCheck::Interactive, false),
        RemoteStep::Skip(SkipReason::NotInteractive)
    );
    assert_eq!(next_step(RemoteCheck::GhInstalled, false), RemoteStep::Skip(SkipReason::GhMissing));
    assert_eq!(
        next_step(RemoteCheck::GhAuthenticated, false),
        RemoteStep::Skip(SkipReason::GhNotAuthenticated)
    );
    assert_eq!(next_step(RemoteCheck::RemoteOrigin, true), RemoteStep::Skip(SkipReason::RemoteExists));
}

#[test]
fn a_successful_creation() {
    assert_eq!(creation_outcome(&exited(true, "")), CreationOutcome::Created);
    assert_eq!(creation_outcome(&exited(true, "Name already exists")), CreationOutcome::Created);
}

#[test]
fn a_taken_name_is_a_warning_with_advice() {
    assert_eq!(
        creation_outcome(&exited(
            false,
            "GraphQL: Name already exists on this account (createRepository)\n"
        )),
        CreationOutcome::Warned(CreationWarning::NameConflict)
    );
    assert_eq!(
        creation_outcome(&exited(false, "repository already exists")),
        CreationOutcome::Warned(CreationWarning::NameConflict)
    );
}

#[test]
fn any_other_failure_is_a_warning_with_the_trimmed_complaint() {
    assert_eq!(
        creation_outcome(&exited(false, "  error connecting to api.github.com\n")),
        CreationOutcome::Warned(CreationWarning::Failed(
            "error connecting to api.github.com".to_string()
        ))
    );
    assert_eq!(
        creation_outcome(&exited(false, "")),
        CreationOutcome::Warned(CreationWarning::Failed(String::new()))
    );
    assert_eq!(
        creation_outcome(&exited(false, "Already Exists")),
        CreationOutcome::Warned(CreationWarning::Failed("Already Exists".to_string()))
    );
}

#[test]
fn a_gh_that_does_not_run_is_a_warning() {
    assert_eq!(
        creation_outcome(&ToolRun::Missing),
        CreationOutcome::Warned(CreationWarning::GhMissing)
    );
    assert_eq!(
        creation_outcome(&ToolRun::NotStarted("Permission denied (os error 13)".to_string())),
        CreationOutcome::Warned(CreationWarning::NotStarted(
            "Permission denied (os error 13)".to_string()
        ))
    );
}

#[test]
fn only_a_successful_run_creates() {
    let runs = vec![
        ToolRun::Missing,
        ToolRun::NotStarted("x".to_string()),
        exited(false, ""),
        exited(false, "already exists"),
        exited(false, "boom"),
        exited(true, "warning: something"),
    ];
    for run in &runs {
        assert_eq!(creation_outcome(run) == CreationOutcome::Created, run.is_success());
    }
    assert!(exited(true, "").is_success());
    assert!(!exited(false, "").is_success());
    assert!(!ToolRun::Missing.is_success());
}
