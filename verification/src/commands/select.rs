//! Selecting a project: whether the picker is needed, what it shows, and what
//! is done with its answer.

use crate::error::{CommandError, Failure};
use crate::projects::{
    current_timestamp, is_first_at, kept, lemma_kept, lemma_kept_is_filter, ref_views, select_flagged, tracks,
    Project, ProjectStore, ProjectView,
};
use crate::text::{join, joined, texts};
use crate::tui::{match_flags, matches_all_terms, term_flags, Selection, SelectionResult};
use vstd::prelude::*;

verus! {

/// How a project comes to be selected.
#[derive(Debug, PartialEq, Eq)]
pub enum SelectionPlan<'a> {
    /// The project at this path is taken without asking.
    Auto(String),
    /// The picker is shown with these candidates and, where filter terms were
    /// given, with the terms as the query that it starts with.
    Pick { candidates: Vec<&'a Project>, query: Option<String> },
}

/// How a project comes to be selected, as plain mathematical values.
pub enum Plan {
    Auto(Seq<char>),
    Pick { candidates: Seq<ProjectView>, query: Option<Seq<char>> },
}

impl<'a> View for SelectionPlan<'a> {
    type V = Plan;

    open spec fn view(&self) -> Plan {
        match self {
            SelectionPlan::Auto(path) => Plan::Auto(path@),
            SelectionPlan::Pick { candidates, query } => Plan::Pick {
                candidates: ref_views(candidates@),
                query: match query {
                    Some(q) => Some(q@),
                    None => None,
                },
            },
        }
    }
}

/// For each project, whether every filter term matches it and it is on disk.
pub open spec fn on_disk_flags(
    all: Seq<ProjectView>,
    filters: Seq<Seq<char>>,
    present: Seq<bool>,
) -> Seq<bool> {
    Seq::new(all.len(), |i: int| matches_all_terms(all[i], filters) && present[i])
}

/// The plan for the ranked projects `all`, of which `present` says which are
/// on disk. Without filter terms the picker shows every project. With terms,
/// the one project on disk that all terms match is taken at once; where there
/// is no such project or more than one, the picker shows the projects that
/// all terms match, or every project where none matches, and starts with the
/// terms as its query.
pub open spec fn planned(all: Seq<ProjectView>, filters: Seq<Seq<char>>, present: Seq<bool>) -> Plan {
    let matching = kept(all, term_flags(all, filters));
    let on_disk = kept(all, on_disk_flags(all, filters, present));
    if filters.len() == 0 {
        Plan::Pick { candidates: all, query: None }
    } else if on_disk.len() == 1 {
        Plan::Auto(on_disk[0].path)
    } else {
        Plan::Pick {
            candidates: if matching.len() == 0 {
                all
            } else {
                matching
            },
            query: Some(joined(filters, " "@)),
        }
    }
}

/// The projects that all terms match are those that filtering by the terms leaves.
pub proof fn lemma_matching_is_filter(all: Seq<ProjectView>, filters: Seq<Seq<char>>)
    ensures
        kept(all, term_flags(all, filters)) == all.filter(
            |p: ProjectView| matches_all_terms(p, filters),
        ),
{
    lemma_kept_is_filter(
        all,
        term_flags(all, filters),
        |p: ProjectView| matches_all_terms(p, filters),
    );
}

/// The picker is never shown an empty list while something is tracked, and a
/// project that is taken without asking is on disk and matched by every term.
pub proof fn lemma_planned(all: Seq<ProjectView>, filters: Seq<Seq<char>>, present: Seq<bool>)
    requires
        all.len() > 0,
        present.len() == all.len(),
    ensures
        planned(all, filters, present) matches Plan::Pick { candidates, .. } ==> candidates.len()
            > 0,
        planned(all, filters, present) matches Plan::Auto(path) ==> filters.len() > 0
            && exists|i: int|
            0 <= i < all.len() && present[i] && matches_all_terms(#[trigger] all[i], filters)
                && all[i].path == path,
{
    let on_disk = kept(all, on_disk_flags(all, filters, present));
    lemma_kept(all, on_disk_flags(all, filters, present));
    if planned(all, filters, present) is Auto {
        assert(on_disk.contains(on_disk[0]));
    }
}

fn copy_of<'a>(all: &[&'a Project]) -> (r: Vec<&'a Project>)
    ensures
        r@ == all@,
{
    let mut r: Vec<&'a Project> = Vec::new();
    let mut i: usize = 0;
    while i < all.len()
        invariant
            i <= all.len(),
            r@ == all@.take(i as int),
        decreases all.len() - i,
    {
        r.push(all[i]);
        i += 1;
    }
    r
}

fn plan_from_flags<'a>(
    all: &[&'a Project],
    filters: &[String],
    matching: &Vec<bool>,
    on_disk: &Vec<bool>,
) -> (plan: SelectionPlan<'a>)
    requires
        filters.len() > 0,
        matching.len() == all.len(),
        on_disk.len() == all.len(),
    ensures
        plan@ == ({
            let hits = kept(ref_views(all@), on_disk@);
            let shown = kept(ref_views(all@), matching@);
            if hits.len() == 1 {
                Plan::Auto(hits[0].path)
            } else {
                Plan::Pick {
                    candidates: if shown.len() == 0 {
                        ref_views(all@)
                    } else {
                        shown
                    },
                    query: Some(joined(texts(filters@), " "@)),
                }
            }
        }),
{
    let hits = select_flagged(all, on_disk);
    if hits.len() == 1 {
        return SelectionPlan::Auto(hits[0].path.clone());
    }
    let query = join(filters, " ");
    let shown = select_flagged(all, matching);
    if shown.len() == 0 {
        SelectionPlan::Pick { candidates: copy_of(all), query: Some(query) }
    } else {
        SelectionPlan::Pick { candidates: shown, query: Some(query) }
    }
}

/// Plans the selection among the ranked projects `all`, of which `present`
/// says which are on disk. Where nothing is tracked there is nothing to plan.
pub fn plan_selection_with<'a>(all: &[&'a Project], filters: &[String], present: &Vec<bool>) -> (r:
    Result<SelectionPlan<'a>, CommandError>)
    requires
        present.len() == all.len(),
    ensures
        r is Ok <==> all.len() > 0,
        r matches Ok(plan) ==> plan@ == planned(ref_views(all@), texts(filters@), present@),
        r matches Err(e) ==> e@ == Failure::NoProjectsFound,
{
    if all.len() == 0 {
        return Err(CommandError::NoProjectsFound);
    }
    if filters.len() == 0 {
        return Ok(SelectionPlan::Pick { candidates: copy_of(all), query: None });
    }
    let matching = match_flags(all, filters);
    let mut on_disk: Vec<bool> = Vec::new();
    let mut i: usize = 0;
    while i < all.len()
        invariant
            i <= all.len(),
            on_disk.len() == i,
            matching.len() == all.len(),
            present.len() == all.len(),
            forall|j: int| 0 <= j < i ==> #[trigger] on_disk@[j] == (matching@[j] && present@[j]),
        decreases all.len() - i,
    {
        on_disk.push(matching[i] && present[i]);
        i += 1;
    }
    assert(on_disk@ =~= on_disk_flags(ref_views(all@), texts(filters@), present@));
    Ok(plan_from_flags(all, filters, &matching, &on_disk))
}

/// Plans the selection among the ranked projects `all`, asking the disk at the
/// moment of the call which of the matching projects are there.
pub fn plan_selection<'a>(all: &[&'a Project], filters: &[String]) -> (r: Result<
    SelectionPlan<'a>,
    CommandError,
>)
    ensures
        r is Ok <==> all.len() > 0,
        r matches Ok(plan) ==> exists|present: Seq<bool>|
            present.len() == all.len() && plan@ == planned(
                ref_views(all@),
                texts(filters@),
                present,
            ),
        r matches Err(e) ==> e@ == Failure::NoProjectsFound,
{
    // The disk is asked about the projects that the terms match; of the
    // others the plan does not depend.
    let matching = match_flags(all, filters);
    let mut present: Vec<bool> = Vec::new();
    let mut i: usize = 0;
    while i < all.len()
        invariant
            i <= all.len(),
            present.len() == i,
            matching.len() == all.len(),
        decreases all.len() - i,
    {
        present.push(matching[i] && all[i].exists_on_disk());
        i += 1;
    }
    plan_selection_with(all, filters, &present)
}

/// What is done with the answer of the picker.
#[derive(Debug, PartialEq, Eq)]
pub enum PickStep {
    /// The project at this path is opened.
    Open(String),
    /// The path is gone: the user is asked whether to stop tracking it, and
    /// the command then ends as a failure.
    OfferRemoval(String),
    /// The user gave up.
    Cancel,
}

/// What is done with the answer of the picker, as plain mathematical values.
pub enum Step {
    Open(Seq<char>),
    OfferRemoval(Seq<char>),
    Cancel,
}

impl View for PickStep {
    type V = Step;

    open spec fn view(&self) -> Step {
        match self {
            PickStep::Open(path) => Step::Open(path@),
            PickStep::OfferRemoval(path) => Step::OfferRemoval(path@),
            PickStep::Cancel => Step::Cancel,
        }
    }
}

/// What is done with an answer of the picker that takes one line. An answer
/// with several lines counts as giving up.
pub open spec fn step_for(selection: Selection) -> Step {
    match selection {
        Selection::Selected(path) => Step::Open(path),
        Selection::MissingSelected(path) => Step::OfferRemoval(path),
        Selection::MultiSelected(_) => Step::Cancel,
        Selection::Cancelled => Step::Cancel,
    }
}

/// What is done with the answer of the picker.
pub fn after_pick(selection: SelectionResult) -> (step: PickStep)
    ensures
        step@ == step_for(selection@),
{
    match selection {
        SelectionResult::Selected(path) => PickStep::Open(path),
        SelectionResult::MissingSelected(path) => PickStep::OfferRemoval(path),
        SelectionResult::MultiSelected(_) => PickStep::Cancel,
        SelectionResult::Cancelled => PickStep::Cancel,
    }
}

/// Acts on the user's answer to the offer to stop tracking a path that is
/// gone: with `confirmed` the path is removed, and the store is to be saved;
/// else the store stays as it is.
pub fn handle_missing_project(store: &mut ProjectStore, path: &str, confirmed: bool) -> (save: bool)
    ensures
        save == confirmed,
        confirmed ==> final(store)@ == old(store)@.filter(|p: ProjectView| p.path != path@),
        !confirmed ==> final(store)@ == old(store)@,
        old(store).wf() ==> final(store).wf(),
{
    if confirmed {
        store.remove(path);
    }
    confirmed
}

/// A project after a selection at `now`.
pub open spec fn accessed(p: ProjectView, now: int) -> ProjectView {
    ProjectView { last_accessed: now, access_count: p.access_count + 1, ..p }
}

/// Records at `now` that the project at `path` was selected, and says whether
/// the path is tracked. An untracked path changes nothing.
pub fn record_selection_at(store: &mut ProjectStore, path: &str, now: i64) -> (found: bool)
    requires
        forall|i: int|
            is_first_at(old(store)@, path@, i) ==> old(store)@[i].access_count < u32::MAX,
    ensures
        found == tracks(old(store)@, path@),
        !found ==> final(store)@ == old(store)@,
        found ==> exists|i: int|
            is_first_at(old(store)@, path@, i) && final(store)@ == old(store)@.update(
                i,
                accessed(old(store)@[i], now as int),
            ),
        old(store).wf() ==> final(store).wf(),
{
    match store.find_by_path_mut(path) {
        Some(project) => {
            project.update_access_at(now);
            true
        },
        None => false,
    }
}

/// Records at the present moment that the project at `path` was selected.
pub fn record_selection(store: &mut ProjectStore, path: &str) -> (found: bool)
    requires
        forall|i: int|
            is_first_at(old(store)@, path@, i) ==> old(store)@[i].access_count < u32::MAX,
    ensures
        found == tracks(old(store)@, path@),
        !found ==> final(store)@ == old(store)@,
        found ==> exists|i: int, now: int|
            is_first_at(old(store)@, path@, i) && final(store)@ == old(store)@.update(
                i,
                accessed(old(store)@[i], now),
            ),
        old(store).wf() ==> final(store).wf(),
{
    record_selection_at(store, path, current_timestamp())
}

/// The editor to launch: none where the override is the empty command, else
/// the override, else the configured editor.
pub open spec fn editor_choice(over: Option<Seq<char>>, configured: Seq<char>) -> Option<Seq<char>> {
    match over {
        Some(editor) => if editor.len() == 0 {
            None
        } else {
            Some(editor)
        },
        None => Some(configured),
    }
}

/// The editor to launch for the selected project, if any.
pub fn editor_to_launch(editor_override: Option<String>, configured: String) -> (r: Option<String>)
    ensures
        match editor_choice(
            match editor_override {
                Some(e) => Some(e@),
                None => None,
            },
            configured@,
        ) {
            Some(editor) => r matches Some(e) && e@ == editor,
            None => r is None,
        },
{
    match editor_override {
        Some(editor) => {
            if editor.as_str().is_empty() {
                None
            } else {
                Some(editor)
            }
        },
        None => Some(configured),
    }
}

/// Whether the selected path is printed for the shell to change into: the
/// override where there is one, else the configured choice.
pub fn should_cd(cd_override: Option<bool>, cd_on_select: bool) -> (r: bool)
    ensures
        r == match cd_override {
            Some(choice) => choice,
            None => cd_on_select,
        },
{
    match cd_override {
        Some(choice) => choice,
        None => cd_on_select,
    }
}

/// The override for changing directory that the two flags amount to: to
/// force it, to suppress it, or none.
pub fn cd_override(force_cd: bool, no_cd: bool) -> (r: Option<bool>)
    ensures
        r == (if force_cd {
            Some(true)
        } else if no_cd {
            Some(false)
        } else {
            None::<bool>
        }),
{
    if force_cd {
        Some(true)
    } else if no_cd {
        Some(false)
    } else {
        None
    }
}

/// The override for the editor that the flags amount to: the empty command
/// where no editor is wanted, else the editor that was named, if any.
pub fn editor_override(no_editor: bool, editor: Option<String>) -> (r: Option<String>)
    ensures
        no_editor ==> (r matches Some(e) && e@.len() == 0),
        !no_editor ==> r == editor,
{
    if no_editor {
        Some(String::new())
    } else {
        editor
    }
}

} // verus!
