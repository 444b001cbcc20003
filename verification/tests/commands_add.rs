use pj::commands::add::{
    add_project, git_dir, git_init_due, git_init_outcome, is_git_repo, remote_due, tags_from_arg,
    wants_git_init, GitInitOutcome, GitInitWarning,
};
use pj::tools::ToolRun;
use pj::config::Config;
use pj::projects::{Project, ProjectStore};

fn strings(items: &[&str]) -> Vec<String> {
    items.iter().map(|s| s.to_string()).collect()
}

fn config(git_init_on_add: bool, gh_create_on_add: bool) -> Config {
    Config { editor: "code".to_string(), cd_on_select: true, git_init_on_add, gh_create_on_add }
}

#[test]
fn tags_from_arg_trims_and_lowercases_each_piece() {
    assert_eq!(tags_from_arg(Some("Work, rust ,CLI")), strings(&["work", "rust", "cli"]));
    assert_eq!(tags_from_arg(Some("one")), strings(&["one"]));
    assert_eq!(tags_from_arg(None), Vec::<String>::new());
}

#[test]
fn tags_from_arg_keeps_empty_pieces() {
    assert_eq!(tags_from_arg(Some("a,,b")), strings(&["a", "", "b"]));
    assert_eq!(tags_from_arg(Some("")), strings(&[""]));
    assert_eq!(tags_from_arg(Some("a, ")), strings(&["a", ""]));
}

#[test]
fn add_project_tracks_a_new_directory() {
    let mut store = ProjectStore::new();
    let r = add_project(&mut store, "/home/u/app".to_string(), Some("Work,CLI"));
    assert!(r.added);
    assert_eq!(r.tags, strings(&["work", "cli"]));
    assert_eq!(store.len(), 1);
    let p = &store.projects()[0];
    assert_eq!(p.path, "/home/u/app");
    assert_eq!(p.tags, strings(&["work", "cli"]));
    assert_eq!(p.access_count, 0);
    assert!(p.last_accessed > 1_600_000_000);
}

#[test]
fn add_project_refreshes_a_tracked_directory() {
    let mut store = ProjectStore::from_projects(vec![
        Project {
            path: "/home/u/app".to_string(),
            tags: strings(&["work"]),
            last_accessed: 5,
            access_count: 9,
        },
        Project {
            path: "/home/u/other".to_string(),
            tags: Vec::new(),
            last_accessed: 6,
            access_count: 1,
        },
    ]);
    let r = add_project(&mut store, "/home/u/app".to_string(), Some("cli,WORK"));
    assert!(!r.added);
    assert_eq!(r.tags, strings(&["cli", "work"]));
    assert_eq!(store.len(), 2);
    let p = &store.projects()[0];
    assert_eq!(p.tags, strings(&["work", "cli"]));
    assert_eq!(p.access_count, 9);
    assert!(p.last_accessed > 1_600_000_000);
    assert_eq!(store.projects()[1].last_accessed, 6);
}

#[test]
fn add_project_without_tags() {
    let mut store = ProjectStore::new();
    let r = add_project(&mut store, "/x".to_string(), None);
    assert!(r.added);
    assert!(r.tags.is_empty());
    assert!(store.projects()[0].tags.is_empty());
}

#[test]
fn git_is_initialised_for_a_new_directory_without_repository() {
    assert!(git_init_due(true, &config(true, false), false));
    assert!(!git_init_due(true, &config(true, false), true));
    assert!(!git_init_due(true, &config(false, false), false));
    assert!(!git_init_due(false, &config(true, false), false));
}

#[test]
fn a_directory_without_dot_git_is_no_repository() {
    assert!(!is_git_repo("/no/such/directory/as/this-0192837465"));
    assert!(!is_git_repo("/"));
}

#[test]
fn wants_git_init_asks_the_disk_where_it_matters() {
    assert!(wants_git_init(true, &config(true, false), "/no/such/directory/as/this-0192837465"));
    assert!(!wants_git_init(false, &config(true, false), "/no/such/directory/as/this-0192837465"));
    assert!(!wants_git_init(true, &config(false, true), "/no/such/directory/as/this-0192837465"));
}

#[test]
fn a_remote_is_offered_for_a_new_directory_when_configured() {
    assert!(remote_due(true, &config(true, true)));
    assert!(!remote_due(false, &config(true, true)));
    assert!(!remote_due(true, &config(true, false)));
}

#[test]
fn the_repository_of_a_directory_is_its_dot_git() {
    assert_eq!(git_dir("/home/u/app"), "/home/u/app/.git");
    assert_eq!(git_dir("/home/u/app/"), "/home/u/app/.git");
    assert_eq!(git_dir("/"), "/.git");
}

#[test]
fn is_git_repo_asks_for_the_entry_dot_git() {
    for path in ["/", "/no/such/directory/as/this-0192837465"] {
        assert_eq!(is_git_repo(path), std::path::Path::new(&git_dir(path)).exists());
    }
}

#[test]
fn a_successful_git_init() {
    let run = ToolRun::Exited { success: true, stderr: "hint: using master\n".to_string() };
    assert_eq!(git_init_outcome(&run), GitInitOutcome::Initialized);
}

#[test]
fn a_git_init_that_fails_is_a_warning() {
    let run = ToolRun::Exited { success: false, stderr: " fatal: cannot mkdir .git\n".to_string() };
    assert_eq!(
        git_init_outcome(&run),
        GitInitOutcome::Warned(GitInitWarning::Failed("fatal: cannot mkdir .git".to_string()))
    );
}

#[test]
fn a_git_that_does_not_run_is_a_warning() {
    assert_eq!(
        git_init_outcome(&ToolRun::Missing),
        GitInitOutcome::Warned(GitInitWarning::GitMissing)
    );
    assert_eq!(
        git_init_outcome(&ToolRun::NotStarted("Permission denied".to_string())),
        GitInitOutcome::Warned(GitInitWarning::NotStarted("Permission denied".to_string()))
    );
}
