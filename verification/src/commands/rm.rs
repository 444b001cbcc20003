//! Removing the projects that a selection names.

use crate::error::{CommandError, Failure};
use crate::projects::{tracks, Project, ProjectStore, ProjectView};
use crate::text::texts;
use crate::tui::{Selection, SelectionResult};
use vstd::prelude::*;

verus! {

/// A removal or a tag change by selection needs something to select from:
/// with nothing tracked it is an error.
pub fn require_tracked(projects: &[&Project]) -> (r: Result<(), CommandError>)
    ensures
        r is Ok <==> projects.len() > 0,
        r matches Err(e) ==> e@ == Failure::NoProjectsTracked,
{
    if projects.len() == 0 {
        Err(CommandError::NoProjectsTracked)
    } else {
        Ok(())
    }
}

/// The projects after every project at one of `paths` was removed.
pub open spec fn without_paths(projects: Seq<ProjectView>, paths: Seq<Seq<char>>) -> Seq<
    ProjectView,
>
    decreases paths.len(),
{
    if paths.len() == 0 {
        projects
    } else {
        without_paths(projects, paths.drop_last()).filter(
            |p: ProjectView| p.path != paths.last(),
        )
    }
}

/// Those of `paths` whose removal, in the order of the list, took a project
/// away: a path that is not tracked, or that the list has named before, is
/// left out.
pub open spec fn removed_paths(projects: Seq<ProjectView>, paths: Seq<Seq<char>>) -> Seq<
    Seq<char>,
>
    decreases paths.len(),
{
    if paths.len() == 0 {
        Seq::empty()
    } else {
        let before = removed_paths(projects, paths.drop_last());
        if tracks(without_paths(projects, paths.drop_last()), paths.last()) {
            before.push(paths.last())
        } else {
            before
        }
    }
}

/// Removes the projects at `paths` and returns the paths at which there was one.
pub fn remove_all(store: &mut ProjectStore, paths: &[String]) -> (removed: Vec<String>)
    ensures
        final(store)@ == without_paths(old(store)@, texts(paths@)),
        texts(removed@) == removed_paths(old(store)@, texts(paths@)),
        old(store).wf() ==> final(store).wf(),
{
    let mut removed: Vec<String> = Vec::new();
    let mut k: usize = 0;
    assert(texts(removed@) == Seq::<Seq<char>>::empty());
    while k < paths.len()
        invariant
            k <= paths.len(),
            store@ == without_paths(old(store)@, texts(paths@).take(k as int)),
            texts(removed@) == removed_paths(old(store)@, texts(paths@).take(k as int)),
            old(store).wf() ==> store.wf(),
        decreases paths.len() - k,
    {
        proof {
            assert(texts(paths@).take(k + 1).drop_last() == texts(paths@).take(k as int));
        }
        if store.remove(paths[k].as_str()) {
            let path = paths[k].clone();
            removed.push(path);
        }
        k += 1;
    }
    assert(texts(paths@).take(k as int) == texts(paths@));
    removed
}

/// What a removal did.
#[derive(Debug, PartialEq, Eq)]
pub enum Removal {
    /// The projects at these paths were removed. The store is to be saved
    /// unless the list is empty.
    Removed(Vec<String>),
    /// The one path that was chosen is not tracked.
    NotFound(String),
    /// The user gave up; nothing was removed.
    Cancelled,
}

/// What a removal did, as plain mathematical values.
pub enum RemovalView {
    Removed(Seq<Seq<char>>),
    NotFound(Seq<char>),
    Cancelled,
}

impl View for Removal {
    type V = RemovalView;

    open spec fn view(&self) -> RemovalView {
        match self {
            Removal::Removed(paths) => RemovalView::Removed(texts(paths@)),
            Removal::NotFound(path) => RemovalView::NotFound(path@),
            Removal::Cancelled => RemovalView::Cancelled,
        }
    }
}

/// The projects that a selection leaves when what it names is removed.
pub open spec fn after_removal(projects: Seq<ProjectView>, selection: Selection) -> Seq<
    ProjectView,
> {
    match selection {
        Selection::MultiSelected(paths) => without_paths(projects, paths),
        Selection::Selected(path) => projects.filter(|p: ProjectView| p.path != path),
        Selection::MissingSelected(path) => projects.filter(|p: ProjectView| p.path != path),
        Selection::Cancelled => projects,
    }
}

/// What removing the projects that a selection names does.
pub open spec fn removal_of(projects: Seq<ProjectView>, selection: Selection) -> RemovalView {
    match selection {
        Selection::MultiSelected(paths) => RemovalView::Removed(removed_paths(projects, paths)),
        Selection::Selected(path) => if tracks(projects, path) {
            RemovalView::Removed(seq![path])
        } else {
            RemovalView::NotFound(path)
        },
        Selection::MissingSelected(path) => if tracks(projects, path) {
            RemovalView::Removed(seq![path])
        } else {
            RemovalView::NotFound(path)
        },
        Selection::Cancelled => RemovalView::Cancelled,
    }
}

fn remove_one(store: &mut ProjectStore, path: String) -> (r: Removal)
    ensures
        final(store)@ == old(store)@.filter(|p: ProjectView| p.path != path@),
        r@ == (if tracks(old(store)@, path@) {
            RemovalView::Removed(seq![path@])
        } else {
            RemovalView::NotFound(path@)
        }),
        old(store).wf() ==> final(store).wf(),
{
    if store.remove(path.as_str()) {
        let mut removed: Vec<String> = Vec::new();
        removed.push(path);
        assert(texts(removed@) == seq![path@]);
        Removal::Removed(removed)
    } else {
        Removal::NotFound(path)
    }
}

/// Removes the projects that a selection names, whether they are on disk or not.
pub fn remove_selected(store: &mut ProjectStore, selection: SelectionResult) -> (r: Removal)
    ensures
        final(store)@ == after_removal(old(store)@, selection@),
        r@ == removal_of(old(store)@, selection@),
        old(store).wf() ==> final(store).wf(),
{
    match selection {
        SelectionResult::MultiSelected(paths) => Removal::Removed(
            remove_all(store, paths.as_slice()),
        ),
        SelectionResult::Selected(path) => remove_one(store, path),
        SelectionResult::MissingSelected(path) => remove_one(store, path),
        SelectionResult::Cancelled => Removal::Cancelled,
    }
}

} // verus!
