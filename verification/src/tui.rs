//! What stands between the projects and the picker: the fuzzy filter over
//! path and tags, the lines that the picker shows, and the reading of its
//! answer.

use crate::projects::{lemma_kept_is_filter, ref_views, select_flagged, Project, ProjectView};
use crate::text::{
    contains_in_order, contains_uppercase, has_uppercase, is_subsequence, join, joined, lowercase,
    texts, to_lowercase,
};
use vstd::prelude::*;

verus! {

/// A pattern matches a text when its characters appear in the text in order.
/// A pattern with an uppercase character is compared as it stands; any other
/// pattern is compared after both sides were lowercased. The empty pattern
/// matches every text.
pub open spec fn fuzzy_matches(text: Seq<char>, pattern: Seq<char>) -> bool {
    if pattern.len() == 0 {
        true
    } else if has_uppercase(pattern) {
        is_subsequence(pattern, text)
    } else {
        is_subsequence(lowercase(pattern), lowercase(text))
    }
}

/// Whether `pattern` matches `text`: an ordered-subsequence test with smart case.
pub fn fuzzy_match(text: &str, pattern: &str) -> (r: bool)
    ensures
        r == fuzzy_matches(text@, pattern@),
{
    if pattern.is_empty() {
        return true;
    }
    if contains_uppercase(pattern) {
        contains_in_order(text, pattern)
    } else {
        let text_lower = to_lowercase(text);
        let pattern_lower = to_lowercase(pattern);
        contains_in_order(text_lower.as_str(), pattern_lower.as_str())
    }
}

/// The text that filter terms are matched against: the path, a space,
/// and the tags with a space between them.
pub open spec fn searchable_text(p: ProjectView) -> Seq<char> {
    p.path + " "@ + joined(p.tags, " "@)
}

/// Every filter term matches the project's searchable text.
pub open spec fn matches_all_terms(p: ProjectView, filters: Seq<Seq<char>>) -> bool {
    forall|k: int|
        0 <= k < filters.len() ==> fuzzy_matches(searchable_text(p), #[trigger] filters[k])
}

/// Filter terms compose with AND: a project passes a list of terms exactly
/// when it passes each part of the list.
pub proof fn lemma_terms_compose(p: ProjectView, first: Seq<Seq<char>>, second: Seq<Seq<char>>)
    ensures
        matches_all_terms(p, first + second) <==> matches_all_terms(p, first) && matches_all_terms(
            p,
            second,
        ),
{
    let both = first + second;
    if matches_all_terms(p, both) {
        assert forall|k: int| 0 <= k < first.len() implies fuzzy_matches(
            searchable_text(p),
            #[trigger] first[k],
        ) by {
            assert(both[k] == first[k]);
        }
        assert forall|k: int| 0 <= k < second.len() implies fuzzy_matches(
            searchable_text(p),
            #[trigger] second[k],
        ) by {
            assert(both[first.len() + k] == second[k]);
        }
    }
    if matches_all_terms(p, first) && matches_all_terms(p, second) {
        assert forall|k: int| 0 <= k < both.len() implies fuzzy_matches(
            searchable_text(p),
            #[trigger] both[k],
        ) by {
            if k < first.len() {
                assert(both[k] == first[k]);
            } else {
                assert(both[k] == second[k - first.len()]);
            }
        }
    }
}

/// A project that one of the terms does not match is not among the projects
/// that filtering by the terms leaves, whatever the other terms are.
pub proof fn lemma_unmatched_term_excludes(
    projects: Seq<ProjectView>,
    filters: Seq<Seq<char>>,
    p: ProjectView,
    k: int,
)
    requires
        0 <= k < filters.len(),
        !fuzzy_matches(searchable_text(p), filters[k]),
    ensures
        !projects.filter(|q: ProjectView| matches_all_terms(q, filters)).contains(p),
{
    let pred = |q: ProjectView| matches_all_terms(q, filters);
    if projects.filter(pred).contains(p) {
        projects.lemma_filter_contains_rev(pred, p);
    }
}

/// The text that filter terms are matched against.
pub fn searchable(project: &Project) -> (r: String)
    ensures
        r@ == searchable_text(project@),
{
    let mut r = project.path.clone();
    r.append(" ");
    let tags = join(project.tags.as_slice(), " ");
    r.append(tags.as_str());
    r
}

/// Whether every filter term matches the project.
pub fn matches_all(project: &Project, filters: &[String]) -> (r: bool)
    ensures
        r == matches_all_terms(project@, texts(filters@)),
{
    let text = searchable(project);
    let mut k: usize = 0;
    while k < filters.len()
        invariant
            k <= filters.len(),
            text@ == searchable_text(project@),
            forall|m: int|
                0 <= m < k ==> fuzzy_matches(
                    searchable_text(project@),
                    #[trigger] texts(filters@)[m],
                ),
        decreases filters.len() - k,
    {
        if !fuzzy_match(text.as_str(), filters[k].as_str()) {
            assert(!fuzzy_matches(searchable_text(project@), texts(filters@)[k as int]));
            return false;
        }
        k += 1;
    }
    true
}

/// For each project, whether every filter term matches it.
pub open spec fn term_flags(projects: Seq<ProjectView>, filters: Seq<Seq<char>>) -> Seq<bool> {
    Seq::new(projects.len(), |i: int| matches_all_terms(projects[i], filters))
}

/// For each project, whether every filter term matches it.
pub fn match_flags(projects: &[&Project], filters: &[String]) -> (keep: Vec<bool>)
    ensures
        keep@ == term_flags(ref_views(projects@), texts(filters@)),
{
    let mut keep: Vec<bool> = Vec::new();
    let mut i: usize = 0;
    while i < projects.len()
        invariant
            i <= projects.len(),
            keep.len() == i,
            forall|j: int|
                0 <= j < i ==> #[trigger] keep@[j] == matches_all_terms(
                    ref_views(projects@)[j],
                    texts(filters@),
                ),
        decreases projects.len() - i,
    {
        keep.push(matches_all(projects[i], filters));
        i += 1;
    }
    keep
}

/// The projects that every filter term matches, in their order.
pub fn filter_projects<'a>(projects: &[&'a Project], filters: &[String]) -> (r: Vec<&'a Project>)
    ensures
        ref_views(r@) == ref_views(projects@).filter(
            |p: ProjectView| matches_all_terms(p, texts(filters@)),
        ),
{
    let keep = match_flags(projects, filters);
    proof {
        lemma_kept_is_filter(
            ref_views(projects@),
            keep@,
            |p: ProjectView| matches_all_terms(p, texts(filters@)),
        );
    }
    select_flagged(projects, &keep)
}

/// One line of the picker: a project as it is shown and as it is searched.
#[derive(Debug, PartialEq, Eq)]
pub struct ProjectItem {
    /// The project's path: what a selection of the line returns.
    pub path: String,
    /// The line as the picker shows it.
    pub display: String,
    /// The text that the picker searches.
    pub searchable: String,
    /// Whether the path was on disk when the line was made.
    pub present: bool,
}

/// What a picker line holds, as plain mathematical values.
pub struct ProjectItemView {
    pub path: Seq<char>,
    pub display: Seq<char>,
    pub searchable: Seq<char>,
    pub present: bool,
}

impl View for ProjectItem {
    type V = ProjectItemView;

    open spec fn view(&self) -> ProjectItemView {
        ProjectItemView {
            path: self.path@,
            display: self.display@,
            searchable: self.searchable@,
            present: self.present,
        }
    }
}

/// The tags as the picker shows them: nothing where there is none, else the
/// tags in square brackets after a space, with a comma and a space between them.
pub open spec fn tag_suffix(tags: Seq<Seq<char>>) -> Seq<char> {
    if tags.len() == 0 {
        Seq::empty()
    } else {
        " ["@ + joined(tags, ", "@) + "]"@
    }
}

/// The mark that the picker shows behind a project that is not on disk.
pub open spec fn missing_suffix(present: bool) -> Seq<char> {
    if present {
        Seq::empty()
    } else {
        " [MISSING]"@
    }
}

/// The picker line of a project.
pub open spec fn item_for(p: ProjectView, present: bool) -> ProjectItemView {
    ProjectItemView {
        path: p.path,
        display: p.path + tag_suffix(p.tags) + missing_suffix(present),
        searchable: searchable_text(p),
        present,
    }
}

impl ProjectItem {
    /// The picker line of a project that is (`present`) or is not on disk.
    pub fn of(project: &Project, present: bool) -> (item: ProjectItem)
        ensures
            item@ == item_for(project@, present),
    {
        let mut display = project.path.clone();
        if project.tags.len() > 0 {
            display.append(" [");
            let tags = join(project.tags.as_slice(), ", ");
            display.append(tags.as_str());
            display.append("]");
        } else {
            assert(display@ + Seq::<char>::empty() == display@);
        }
        if !present {
            display.append(" [MISSING]");
        } else {
            assert(display@ + Seq::<char>::empty() == display@);
        }
        proof {
            let tags = tag_suffix(project@.tags);
            if project.tags.len() > 0 {
                let inner = joined(project@.tags, ", "@);
                assert(project@.path + " ["@ + inner + "]"@ == project@.path + (" ["@ + inner
                    + "]"@));
            }
        }
        ProjectItem {
            path: project.path.clone(),
            display,
            searchable: searchable(project),
            present,
        }
    }
}

/// The picker lines of the projects, each with the answer that the disk gave
/// for its path at the moment of the call.
pub fn create_project_items(projects: &[&Project]) -> (items: Vec<ProjectItem>)
    ensures
        items.len() == projects.len(),
        forall|i: int|
            0 <= i < items.len() ==> (#[trigger] items@[i])@ == item_for(
                projects@[i]@,
                items@[i].present,
            ),
{
    let mut items: Vec<ProjectItem> = Vec::new();
    let mut i: usize = 0;
    while i < projects.len()
        invariant
            i <= projects.len(),
            items.len() == i,
            forall|j: int|
                0 <= j < i ==> (#[trigger] items@[j])@ == item_for(
                    projects@[j]@,
                    items@[j].present,
                ),
        decreases projects.len() - i,
    {
        let present = projects[i].exists_on_disk();
        items.push(ProjectItem::of(projects[i], present));
        i += 1;
    }
    items
}

/// How a round with the picker ended.
#[derive(Debug, PartialEq, Eq)]
pub enum SelectionResult {
    /// One project was chosen and its path is on disk.
    Selected(String),
    /// One project was chosen and its path is gone.
    MissingSelected(String),
    /// Several projects were chosen.
    MultiSelected(Vec<String>),
    /// The user gave up.
    Cancelled,
}

/// How a round with the picker ended, as plain mathematical values.
pub enum Selection {
    Selected(Seq<char>),
    MissingSelected(Seq<char>),
    MultiSelected(Seq<Seq<char>>),
    Cancelled,
}

impl View for SelectionResult {
    type V = Selection;

    open spec fn view(&self) -> Selection {
        match self {
            SelectionResult::Selected(path) => Selection::Selected(path@),
            SelectionResult::MissingSelected(path) => Selection::MissingSelected(path@),
            SelectionResult::MultiSelected(paths) => Selection::MultiSelected(texts(paths@)),
            SelectionResult::Cancelled => Selection::Cancelled,
        }
    }
}

/// What the picker handed back.
#[derive(Debug, PartialEq, Eq)]
pub enum PickerOutput {
    /// The picker returned nothing at all.
    Nothing,
    /// The user pressed the abort key.
    Aborted,
    /// The user accepted with these lines selected, in the picker's order.
    Accepted(Vec<ProjectItem>),
}

/// The views of a sequence of picker lines.
pub open spec fn item_views(items: Seq<ProjectItem>) -> Seq<ProjectItemView> {
    items.map_values(|item: ProjectItem| item@)
}

/// The paths of a sequence of picker lines.
pub open spec fn item_paths(items: Seq<ProjectItem>) -> Seq<Seq<char>> {
    items.map_values(|item: ProjectItem| item.path@)
}

/// The outcome of a picker that takes one line: the first selected line counts.
pub open spec fn single_outcome(output: PickerOutput) -> Selection {
    match output {
        PickerOutput::Accepted(items) => if items.len() == 0 {
            Selection::Cancelled
        } else if items@[0].present {
            Selection::Selected(items@[0].path@)
        } else {
            Selection::MissingSelected(items@[0].path@)
        },
        _ => Selection::Cancelled,
    }
}

/// The outcome of a picker that takes several lines.
pub open spec fn multi_outcome(output: PickerOutput) -> Selection {
    match output {
        PickerOutput::Accepted(items) => if items.len() == 0 {
            Selection::Cancelled
        } else {
            Selection::MultiSelected(item_paths(items@))
        },
        _ => Selection::Cancelled,
    }
}

/// Reads the answer of a picker that takes one line.
pub fn single_selection(output: &PickerOutput) -> (r: SelectionResult)
    ensures
        r@ == single_outcome(*output),
{
    match output {
        PickerOutput::Accepted(items) => {
            if items.len() == 0 {
                SelectionResult::Cancelled
            } else if items[0].present {
                SelectionResult::Selected(items[0].path.clone())
            } else {
                SelectionResult::MissingSelected(items[0].path.clone())
            }
        },
        _ => SelectionResult::Cancelled,
    }
}

/// Reads the answer of a picker that takes several lines.
pub fn multi_selection(output: &PickerOutput) -> (r: SelectionResult)
    ensures
        r@ == multi_outcome(*output),
{
    match output {
        PickerOutput::Accepted(items) => {
            if items.len() == 0 {
                return SelectionResult::Cancelled;
            }
            let mut paths: Vec<String> = Vec::new();
            let mut i: usize = 0;
            while i < items.len()
                invariant
                    i <= items.len(),
                    texts(paths@) == item_paths(items@.take(i as int)),
                decreases items.len() - i,
            {
                let path = items[i].path.clone();
                proof {
                    assert(texts(paths@.push(path)) == texts(paths@).push(path@));
                }
                paths.push(path);
                i += 1;
            }
            assert(items@.take(i as int) == items@);
            SelectionResult::MultiSelected(paths)
        },
        _ => SelectionResult::Cancelled,
    }
}

} // verus!
