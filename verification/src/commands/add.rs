//! Adding a directory: the tags that the argument lists, the change to the
//! store, and what is due afterwards.

use crate::config::Config;
use crate::paths::{join_path, joined_path, path_exists};
use crate::projects::{is_first_at, merged_tags, refreshed, tracks, Project, ProjectStore};
use crate::text::{
    copy_texts, lowercase, split, split_text, texts, to_lowercase, trim, trimmed,
};
use crate::tools::{succeeded, Run, ToolRun};
use vstd::prelude::*;

verus! {

/// The tags that the argument of an addition lists: the pieces between its
/// commas, each without the whitespace around it and lowercased.
pub open spec fn listed_tags(list: Seq<char>) -> Seq<Seq<char>> {
    split_text(list, ',').map_values(|piece: Seq<char>| lowercase(trimmed(piece)))
}

/// The tags that the argument of an addition lists; none without an argument.
pub fn tags_from_arg(tags: Option<&str>) -> (r: Vec<String>)
    ensures
        texts(r@) == match tags {
            Some(list) => listed_tags(list@),
            None => Seq::empty(),
        },
{
    let mut r: Vec<String> = Vec::new();
    match tags {
        None => {
            assert(texts(r@) == Seq::<Seq<char>>::empty());
        },
        Some(list) => {
            let pieces = split(list, ',');
            let mut i: usize = 0;
            while i < pieces.len()
                invariant
                    i <= pieces.len(),
                    texts(pieces@) == split_text(list@, ','),
                    texts(r@) == listed_tags(list@).take(i as int),
                decreases pieces.len() - i,
            {
                let piece = trim(pieces[i].as_str());
                let tag = to_lowercase(piece.as_str());
                proof {
                    assert(listed_tags(list@).take(i + 1) == listed_tags(list@).take(
                        i as int,
                    ).push(tag@));
                }
                r.push(tag);
                i += 1;
            }
        },
    }
    r
}

/// What adding a directory did.
#[derive(Debug, PartialEq, Eq)]
pub struct Addition {
    /// Whether the directory was not tracked before.
    pub added: bool,
    /// The tags that were given.
    pub tags: Vec<String>,
}

/// Tracks the directory at `path` with the tags that `tags` lists. A
/// directory that is tracked already takes the tags and the present time.
pub fn add_project(store: &mut ProjectStore, path: String, tags: Option<&str>) -> (r: Addition)
    ensures
        r.added == !tracks(old(store)@, path@),
        texts(r.tags@) == match tags {
            Some(list) => listed_tags(list@),
            None => Seq::empty(),
        },
        r.added ==> final(store)@.len() == old(store)@.len() + 1 && final(store)@.take(
            old(store)@.len() as int,
        ) == old(store)@ && ({
            let p = final(store)@.last();
            p.path == path@ && p.access_count == 0 && p.tags == merged_tags(
                Seq::empty(),
                texts(r.tags@),
            )
        }),
        !r.added ==> exists|i: int, now: int|
            is_first_at(old(store)@, path@, i) && final(store)@ == old(store)@.update(
                i,
                refreshed(
                    old(store)@[i],
                    merged_tags(Seq::empty(), texts(r.tags@)),
                    now,
                ),
            ),
        old(store).wf() ==> final(store).wf(),
{
    let given = tags_from_arg(tags);
    let kept = copy_texts(given.as_slice());
    let project = Project::new(path).with_tags(given);
    let added = store.add(project);
    proof {
        if added {
            assert(store@.take(old(store)@.len() as int) == old(store)@);
        }
    }
    Addition { added, tags: kept }
}

/// The place of a directory's git repository: its entry `.git`.
pub fn git_dir(path: &str) -> (r: String)
    ensures
        r@ == joined_path(path@, ".git"@),
{
    join_path(path, ".git")
}

/// Whether the directory at `path` holds a git repository: whether its entry
/// `.git` is on disk at the moment of the call.
pub fn is_git_repo(path: &str) -> (r: bool) {
    let entry = git_dir(path);
    path_exists(entry.as_str())
}

/// A git repository is to be initialised after an addition where the
/// directory is newly tracked, the settings ask for it, and the directory
/// holds no repository yet.
pub open spec fn init_due(added: bool, git_init_on_add: bool, is_repo: bool) -> bool {
    added && git_init_on_add && !is_repo
}

/// Whether a git repository is to be initialised after an addition, given
/// whether the directory holds one.
pub fn git_init_due(added: bool, config: &Config, is_repo: bool) -> (r: bool)
    ensures
        r == init_due(added, config.git_init_on_add, is_repo),
{
    added && config.git_init_on_add && !is_repo
}

/// Whether a git repository is to be initialised in the directory at `path`
/// after an addition. The disk is asked only where the answer depends on it.
pub fn wants_git_init(added: bool, config: &Config, path: &str) -> (r: bool)
    ensures
        exists|is_repo: bool| r == init_due(added, config.git_init_on_add, is_repo),
{
    if added && config.git_init_on_add {
        let is_repo = is_git_repo(path);
        git_init_due(added, config, is_repo)
    } else {
        // Whatever the disk would say, nothing is due.
        assert(!init_due(added, config.git_init_on_add, true));
        false
    }
}

/// Why the user is warned after an attempt to initialise a git repository.
/// None of these ends the command: the project is tracked all the same.
#[derive(Debug, PartialEq, Eq)]
pub enum GitInitWarning {
    /// `git` was not found; the step is skipped.
    GitMissing,
    /// `git` could not be started, for the reason given.
    NotStarted(String),
    /// `git init` failed, with this trimmed complaint.
    Failed(String),
}

/// How an attempt to initialise a git repository ended: it was initialised,
/// or the user is warned.
#[derive(Debug, PartialEq, Eq)]
pub enum GitInitOutcome {
    Initialized,
    Warned(GitInitWarning),
}

/// Why the user is warned, as plain mathematical values.
pub enum InitWarning {
    GitMissing,
    NotStarted(Seq<char>),
    Failed(Seq<char>),
}

/// How an attempt to initialise a git repository ended, as plain mathematical
/// values.
pub enum GitInit {
    Initialized,
    Warned(InitWarning),
}

impl View for GitInitWarning {
    type V = InitWarning;

    open spec fn view(&self) -> InitWarning {
        match self {
            GitInitWarning::GitMissing => InitWarning::GitMissing,
            GitInitWarning::NotStarted(reason) => InitWarning::NotStarted(reason@),
            GitInitWarning::Failed(complaint) => InitWarning::Failed(complaint@),
        }
    }
}

impl View for GitInitOutcome {
    type V = GitInit;

    open spec fn view(&self) -> GitInit {
        match self {
            GitInitOutcome::Initialized => GitInit::Initialized,
            GitInitOutcome::Warned(warning) => GitInit::Warned(warning@),
        }
    }
}

/// How an attempt ended, from what became of the run of `git init`. A run
/// that ended with success initialised the repository; every other run is a
/// warning.
pub open spec fn git_init_of(run: Run) -> GitInit {
    match run {
        Run::Missing => GitInit::Warned(InitWarning::GitMissing),
        Run::NotStarted(reason) => GitInit::Warned(InitWarning::NotStarted(reason)),
        Run::Exited { success, stderr } => if success {
            GitInit::Initialized
        } else {
            GitInit::Warned(InitWarning::Failed(trimmed(stderr)))
        },
    }
}

/// Reads the end of an attempt to initialise a git repository.
pub fn git_init_outcome(run: &ToolRun) -> (r: GitInitOutcome)
    ensures
        r@ == git_init_of(run@),
        r@ is Initialized <==> succeeded(run@),
{
    match run {
        ToolRun::Missing => GitInitOutcome::Warned(GitInitWarning::GitMissing),
        ToolRun::NotStarted(reason) => GitInitOutcome::Warned(
            GitInitWarning::NotStarted(reason.clone()),
        ),
        ToolRun::Exited { success, stderr } => {
            if *success {
                GitInitOutcome::Initialized
            } else {
                GitInitOutcome::Warned(GitInitWarning::Failed(trim(stderr.as_str())))
            }
        },
    }
}

/// Whether a GitHub remote is to be offered after an addition: where the
/// directory is newly tracked and the settings ask for it.
pub fn remote_due(added: bool, config: &Config) -> (r: bool)
    ensures
        r == (added && config.gh_create_on_add),
{
    added && config.gh_create_on_add
}

} // verus!
