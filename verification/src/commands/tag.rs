//! Changing tags: the tags that a list names, the projects that a selection
//! names, and the change to the store.

use crate::error::{CommandError, Failure, Stop};
use crate::projects::{
    is_first_at, lemma_first_at, lemma_merged_tags, lemma_tags_except, lowered, merged_tags,
    tags_except, tracks, well_formed, ProjectStore, ProjectView,
};
use crate::text::{lowercase, split, split_text, starts_with, texts, to_lowercase, trim, trimmed};
use crate::tui::{Selection, SelectionResult};
use vstd::prelude::*;

verus! {

/// The tags that a comma-separated list names: each piece without the
/// whitespace around it and lowercased, empty pieces left out.
pub open spec fn parsed_tags(list: Seq<char>) -> Seq<Seq<char>> {
    split_text(list, ',').map_values(|piece: Seq<char>| lowercase(trimmed(piece))).filter(
        |tag: Seq<char>| tag.len() > 0,
    )
}

/// The tags that a comma-separated list names.
pub fn parse_tags(tags_str: &str) -> (tags: Vec<String>)
    ensures
        texts(tags@) == parsed_tags(tags_str@),
        forall|i: int| 0 <= i < tags.len() ==> (#[trigger] texts(tags@)[i]).len() > 0,
{
    let pieces = split(tags_str, ',');
    let ghost cleaned = split_text(tags_str@, ',').map_values(
        |piece: Seq<char>| lowercase(trimmed(piece)),
    );
    let ghost nonempty = |tag: Seq<char>| tag.len() > 0;
    let mut tags: Vec<String> = Vec::new();
    let mut i: usize = 0;
    proof {
        reveal(Seq::filter);
    }
    while i < pieces.len()
        invariant
            i <= pieces.len(),
            texts(pieces@) == split_text(tags_str@, ','),
            cleaned == split_text(tags_str@, ',').map_values(
                |piece: Seq<char>| lowercase(trimmed(piece)),
            ),
            nonempty == |tag: Seq<char>| tag.len() > 0,
            texts(tags@) == cleaned.take(i as int).filter(nonempty),
        decreases pieces.len() - i,
    {
        let piece = trim(pieces[i].as_str());
        let tag = to_lowercase(piece.as_str());
        proof {
            reveal(Seq::filter);
            assert(cleaned.take(i + 1).drop_last() == cleaned.take(i as int));
        }
        if !tag.as_str().is_empty() {
            tags.push(tag);
        }
        i += 1;
    }
    assert(cleaned.take(i as int) == cleaned);
    tags
}

/// The tags that the user entered at the prompt; an answer without tags is an error.
pub fn entered_tags(input: &str) -> (r: Result<Vec<String>, CommandError>)
    ensures
        r is Ok <==> parsed_tags(input@).len() > 0,
        r matches Ok(tags) ==> texts(tags@) == parsed_tags(input@),
        r matches Err(e) ==> e@ == Failure::NoTagsEntered,
{
    let tags = parse_tags(input);
    if tags.len() == 0 {
        Err(CommandError::NoTagsEntered)
    } else {
        Ok(tags)
    }
}

/// Completes what the user has typed to a known tag.
#[derive(Debug, PartialEq, Eq)]
pub struct TagCompletion {
    /// The known tags, in the order in which they are tried.
    pub tags: Vec<String>,
}

/// Position `i` holds the first tag that begins with `start`.
pub open spec fn is_first_completion(tags: Seq<Seq<char>>, start: Seq<char>, i: int) -> bool {
    &&& 0 <= i < tags.len()
    &&& start.is_prefix_of(tags[i])
    &&& forall|j: int| 0 <= j < i ==> !start.is_prefix_of(#[trigger] tags[j])
}

impl TagCompletion {
    /// The first known tag that begins with `start`, taken as it stands.
    pub fn first_with_prefix(&self, start: &str) -> (r: Option<String>)
        ensures
            r is Some <==> exists|i: int|
                0 <= i < self.tags.len() && start@.is_prefix_of(#[trigger] texts(self.tags@)[i]),
            r matches Some(tag) ==> exists|i: int|
                is_first_completion(texts(self.tags@), start@, i) && tag@ == texts(self.tags@)[i],
    {
        let mut i: usize = 0;
        while i < self.tags.len()
            invariant
                i <= self.tags.len(),
                forall|j: int| 0 <= j < i ==> !start@.is_prefix_of(#[trigger] texts(self.tags@)[j]),
            decreases self.tags.len() - i,
        {
            if starts_with(self.tags[i].as_str(), start) {
                let tag = self.tags[i].clone();
                assert(is_first_completion(texts(self.tags@), start@, i as int));
                return Some(tag);
            }
            i += 1;
        }
        None
    }

    /// The first known tag that begins with the input, lowercased.
    pub fn get(&self, input: &str) -> (r: Option<String>)
        ensures
            r is Some <==> exists|i: int|
                0 <= i < self.tags.len() && lowercase(input@).is_prefix_of(
                    #[trigger] texts(self.tags@)[i],
                ),
            r matches Some(tag) ==> exists|i: int|
                is_first_completion(texts(self.tags@), lowercase(input@), i) && tag@ == texts(
                    self.tags@,
                )[i],
    {
        let input_lower = to_lowercase(input);
        self.first_with_prefix(input_lower.as_str())
    }
}

/// Where the projects to retag come from.
#[derive(Debug, PartialEq, Eq)]
pub enum TargetPlan {
    /// A path was named: it is the one target, and nobody is asked.
    Direct(Vec<String>),
    /// No path was named: the picker is shown.
    Pick,
}

/// Where the projects to retag come from, as plain mathematical values.
pub enum TargetPlanView {
    Direct(Seq<Seq<char>>),
    Pick,
}

impl View for TargetPlan {
    type V = TargetPlanView;

    open spec fn view(&self) -> TargetPlanView {
        match self {
            TargetPlan::Direct(paths) => TargetPlanView::Direct(texts(paths@)),
            TargetPlan::Pick => TargetPlanView::Pick,
        }
    }
}

/// Where the projects to retag come from: a path that was named is taken as
/// it stands, tracked or not; without one the picker is shown.
pub fn plan_targets(explicit: Option<String>) -> (plan: TargetPlan)
    ensures
        plan@ == match explicit {
            Some(path) => TargetPlanView::Direct(seq![path@]),
            None => TargetPlanView::Pick,
        },
{
    match explicit {
        Some(path) => {
            let mut targets: Vec<String> = Vec::new();
            targets.push(path);
            assert(texts(targets@) == seq![path@]);
            TargetPlan::Direct(targets)
        },
        None => TargetPlan::Pick,
    }
}

/// The paths whose tags a selection asks to change. A single choice counts as
/// a list of one; a choice whose path is gone is an error; giving up ends the
/// command; and an empty list is an error.
pub open spec fn targets_of(selection: Selection) -> Result<Seq<Seq<char>>, Option<Failure>> {
    match selection {
        Selection::MultiSelected(paths) => if paths.len() == 0 {
            Err(Some(Failure::NoProjectsSelected))
        } else {
            Ok(paths)
        },
        Selection::Selected(path) => Ok(seq![path]),
        Selection::MissingSelected(_) => Err(Some(Failure::MissingProject)),
        Selection::Cancelled => Err(None),
    }
}

/// The view of the reason for which a command ends early: `None` where the
/// user gave up.
pub open spec fn stop_view(stop: Stop) -> Option<Failure> {
    match stop {
        Stop::Cancelled => None,
        Stop::Failed(e) => Some(e@),
    }
}

/// The paths whose tags a selection asks to change.
pub fn tag_targets(selection: SelectionResult) -> (r: Result<Vec<String>, Stop>)
    ensures
        match targets_of(selection@) {
            Ok(paths) => r matches Ok(targets) && texts(targets@) == paths,
            Err(why) => r matches Err(stop) && stop_view(stop) == why,
        },
{
    match selection {
        SelectionResult::MultiSelected(paths) => {
            if paths.len() == 0 {
                Err(Stop::Failed(CommandError::NoProjectsSelected))
            } else {
                Ok(paths)
            }
        },
        SelectionResult::Selected(path) => {
            let mut targets: Vec<String> = Vec::new();
            targets.push(path);
            Ok(targets)
        },
        SelectionResult::MissingSelected(_) => Err(Stop::Failed(CommandError::MissingProject)),
        SelectionResult::Cancelled => Err(Stop::Cancelled),
    }
}

/// A project after `tags` were added to it or, with `remove`, taken from it.
pub open spec fn retagged(p: ProjectView, tags: Seq<Seq<char>>, remove: bool) -> ProjectView {
    ProjectView {
        tags: if remove {
            tags_except(p.tags, lowered(tags))
        } else {
            merged_tags(p.tags, tags)
        },
        ..p
    }
}

/// The projects after the first one at `path` was retagged; unchanged where
/// the path is not tracked.
pub open spec fn retagged_at(
    projects: Seq<ProjectView>,
    path: Seq<char>,
    tags: Seq<Seq<char>>,
    remove: bool,
) -> Seq<ProjectView> {
    if tracks(projects, path) {
        let i = choose|i: int| is_first_at(projects, path, i);
        projects.update(i, retagged(projects[i], tags, remove))
    } else {
        projects
    }
}

/// The projects after those at `targets` were retagged, one target after the other.
pub open spec fn retagged_all(
    projects: Seq<ProjectView>,
    targets: Seq<Seq<char>>,
    tags: Seq<Seq<char>>,
    remove: bool,
) -> Seq<ProjectView>
    decreases targets.len(),
{
    if targets.len() == 0 {
        projects
    } else {
        retagged_at(
            retagged_all(projects, targets.drop_last(), tags, remove),
            targets.last(),
            tags,
            remove,
        )
    }
}

/// Position `k` holds the first target that is not tracked.
pub open spec fn is_first_untracked(
    projects: Seq<ProjectView>,
    targets: Seq<Seq<char>>,
    k: int,
) -> bool {
    &&& 0 <= k < targets.len()
    &&& !tracks(projects, targets[k])
    &&& forall|j: int| 0 <= j < k ==> tracks(projects, #[trigger] targets[j])
}

/// Retagging changes no path, so it changes nothing about which paths are tracked.
pub proof fn lemma_retagging_keeps_paths(
    projects: Seq<ProjectView>,
    targets: Seq<Seq<char>>,
    tags: Seq<Seq<char>>,
    remove: bool,
)
    ensures
        retagged_all(projects, targets, tags, remove).len() == projects.len(),
        forall|i: int|
            0 <= i < projects.len() ==> (#[trigger] retagged_all(
                projects,
                targets,
                tags,
                remove,
            )[i]).path == projects[i].path,
        forall|path: Seq<char>|
            tracks(projects, path) <==> #[trigger] tracks(
                retagged_all(projects, targets, tags, remove),
                path,
            ),
    decreases targets.len(),
{
    let after = retagged_all(projects, targets, tags, remove);
    if targets.len() > 0 {
        let before = retagged_all(projects, targets.drop_last(), tags, remove);
        lemma_retagging_keeps_paths(projects, targets.drop_last(), tags, remove);
        lemma_first_at(before, targets.last());
        assert forall|i: int| 0 <= i < projects.len() implies (#[trigger] after[i]).path
            == projects[i].path by {
            assert(before[i].path == projects[i].path);
        }
    }
    assert forall|path: Seq<char>| tracks(projects, path) <==> #[trigger] tracks(after, path) by {
        if tracks(projects, path) {
            let i = choose|i: int| 0 <= i < projects.len() && (#[trigger] projects[i]).path == path;
            assert(after[i].path == path);
        }
        if tracks(after, path) {
            let i = choose|i: int| 0 <= i < after.len() && (#[trigger] after[i]).path == path;
            assert(projects[i].path == path);
        }
    }
}

/// Retagging a project leaves a well-formed sequence well-formed.
pub proof fn lemma_retagging_keeps_form(
    projects: Seq<ProjectView>,
    path: Seq<char>,
    tags: Seq<Seq<char>>,
    remove: bool,
)
    requires
        well_formed(projects),
    ensures
        well_formed(retagged_at(projects, path, tags, remove)),
{
    if tracks(projects, path) {
        lemma_first_at(projects, path);
        let i = choose|i: int| is_first_at(projects, path, i);
        lemma_merged_tags(projects[i].tags, tags);
        lemma_tags_except(projects[i].tags, lowered(tags));
    }
}

/// Adds `tags` to the project at each target or, with `remove`, takes them from
/// it. The targets are handled in order; the first one that is not tracked
/// ends the work with an error that names it, the targets before it done.
pub fn apply_tags(store: &mut ProjectStore, targets: &[String], tags: &[String], remove: bool) -> (r:
    Result<(), CommandError>)
    ensures
        r is Ok <==> forall|k: int|
            0 <= k < targets.len() ==> tracks(old(store)@, #[trigger] texts(targets@)[k]),
        r is Ok ==> final(store)@ == retagged_all(
            old(store)@,
            texts(targets@),
            texts(tags@),
            remove,
        ),
        r matches Err(e) ==> exists|k: int|
            is_first_untracked(old(store)@, texts(targets@), k) && e@ == Failure::ProjectNotFound(
                texts(targets@)[k],
            ) && final(store)@ == retagged_all(
                old(store)@,
                texts(targets@).take(k),
                texts(tags@),
                remove,
            ),
        old(store).wf() ==> final(store).wf(),
{
    let mut k: usize = 0;
    while k < targets.len()
        invariant
            k <= targets.len(),
            old(store).wf() ==> store.wf(),
            forall|j: int| 0 <= j < k ==> tracks(old(store)@, #[trigger] texts(targets@)[j]),
            store@ == retagged_all(
                old(store)@,
                texts(targets@).take(k as int),
                texts(tags@),
                remove,
            ),
        decreases targets.len() - k,
    {
        let ghost before = store@;
        let ghost path = texts(targets@)[k as int];
        proof {
            lemma_retagging_keeps_paths(
                old(store)@,
                texts(targets@).take(k as int),
                texts(tags@),
                remove,
            );
            assert(texts(targets@).take(k + 1).drop_last() == texts(targets@).take(k as int));
        }
        match store.find_by_path_mut(targets[k].as_str()) {
            Some(project) => {
                if remove {
                    project.remove_tags(tags);
                } else {
                    project.add_tag_list(tags);
                }
            },
            None => {
                assert(is_first_untracked(old(store)@, texts(targets@), k as int));
                return Err(CommandError::ProjectNotFound(targets[k].clone()));
            },
        }
        proof {
            lemma_first_at(before, path);
            if well_formed(before) {
                lemma_retagging_keeps_form(before, path, texts(tags@), remove);
            }
        }
        k += 1;
    }
    assert(texts(targets@).take(k as int) == texts(targets@));
    Ok(())
}

} // verus!
