//! Projects and the store that tracks them. A project is found by its path;
//! its tags are lowercase and each occurs once. The store keeps its projects
//! in the order in which they were added, one per path.

use crate::frecency::{is_ranking, positions, rank_by_key};
use crate::paths::path_exists;
use crate::text::{
    copy_texts, lemma_text_order, lowercase, push_char, starts_with, text_before, text_less, texts,
    to_lowercase,
};
use vstd::prelude::*;

verus! {

/// chrono's conversion of the system time, `DateTime::<Utc>::from`, and
/// `DateTime::timestamp`: the seconds since the epoch at this moment, negative
/// on a clock that stands before the epoch. Nothing is claimed of the value:
/// it is the clock's. The conversion rests on the clock standing within the
/// dates that chrono holds, some 262,000 years on either side of the epoch.
#[verifier::external_body]
pub(crate) fn current_timestamp() -> (now: i64) {
    chrono::DateTime::<chrono::Utc>::from(std::time::SystemTime::now()).timestamp()
}

/// One tracked location.
#[derive(Debug, PartialEq, Eq)]
pub struct Project {
    /// The canonical absolute path: the key by which the project is found.
    pub path: String,
    /// Lowercase tags in the order in which they were given.
    pub tags: Vec<String>,
    /// When the project was last selected or added, in seconds since the epoch.
    pub last_accessed: i64,
    /// How often the project was selected.
    pub access_count: u32,
}

/// What a project holds, as plain mathematical values.
pub struct ProjectView {
    pub path: Seq<char>,
    pub tags: Seq<Seq<char>>,
    pub last_accessed: int,
    pub access_count: nat,
}

impl View for Project {
    type V = ProjectView;

    open spec fn view(&self) -> ProjectView {
        ProjectView {
            path: self.path@,
            tags: texts(self.tags@),
            last_accessed: self.last_accessed as int,
            access_count: self.access_count as nat,
        }
    }
}

impl Clone for Project {
    fn clone(&self) -> (p: Project)
        ensures
            p@ == self@,
    {
        Project {
            path: self.path.clone(),
            tags: copy_texts(self.tags.as_slice()),
            last_accessed: self.last_accessed,
            access_count: self.access_count,
        }
    }
}

/// A tag satisfies a filter when it is the filter itself or lies below it
/// in the hierarchy that `/` spells out.
pub open spec fn tag_matches(tag: Seq<char>, filter: Seq<char>) -> bool {
    tag == filter || filter.push('/').is_prefix_of(tag)
}

/// Some tag of the list satisfies the filter.
pub open spec fn any_tag_matches(tags: Seq<Seq<char>>, filter: Seq<char>) -> bool {
    exists|i: int| 0 <= i < tags.len() && tag_matches(#[trigger] tags[i], filter)
}

/// A filter matches itself and everything below it, and nothing else: a tag
/// that matches without being the filter goes on with a `/` where the filter ends.
pub proof fn lemma_tag_matches(tag: Seq<char>, filter: Seq<char>, rest: Seq<char>)
    ensures
        tag_matches(filter, filter),
        tag_matches(filter + seq!['/'] + rest, filter),
        tag_matches(tag, filter) && tag != filter ==> tag.len() > filter.len() && tag[filter.len() as int]
            == '/' && tag.take(filter.len() as int) == filter,
{
    let below = filter + seq!['/'] + rest;
    assert(below.subrange(0, filter.len() as int + 1) == filter.push('/'));
    if tag_matches(tag, filter) && tag != filter {
        let prefix = filter.push('/');
        assert(tag.subrange(0, prefix.len() as int)[filter.len() as int] == '/');
    }
}

/// The list with `tag` appended unless it is already there.
pub open spec fn with_tag(tags: Seq<Seq<char>>, tag: Seq<char>) -> Seq<Seq<char>> {
    if tags.contains(tag) {
        tags
    } else {
        tags.push(tag)
    }
}

/// The list after each of `added`, lowercased, has joined it in turn,
/// those already present left out.
pub open spec fn merged_tags(tags: Seq<Seq<char>>, added: Seq<Seq<char>>) -> Seq<Seq<char>>
    decreases added.len(),
{
    if added.len() == 0 {
        tags
    } else {
        with_tag(merged_tags(tags, added.drop_last()), lowercase(added.last()))
    }
}

/// Each text lowercased.
pub open spec fn lowered(tags: Seq<Seq<char>>) -> Seq<Seq<char>> {
    tags.map_values(|t: Seq<char>| lowercase(t))
}

/// The list without the tags that equal one of `removed`.
pub open spec fn tags_except(tags: Seq<Seq<char>>, removed: Seq<Seq<char>>) -> Seq<Seq<char>>
    decreases tags.len(),
{
    if tags.len() == 0 {
        tags
    } else {
        let rest = tags_except(tags.drop_last(), removed);
        if removed.contains(tags.last()) {
            rest
        } else {
            rest.push(tags.last())
        }
    }
}

/// Whether `tag` is one of `tags`.
pub fn has_tag(tags: &Vec<String>, tag: &String) -> (r: bool)
    ensures
        r == texts(tags@).contains(tag@),
{
    let mut i: usize = 0;
    while i < tags.len()
        invariant
            i <= tags.len(),
            forall|j: int| 0 <= j < i ==> #[trigger] texts(tags@)[j] != tag@,
        decreases tags.len() - i,
    {
        if tags[i] == *tag {
            assert(texts(tags@)[i as int] == tag@);
            return true;
        }
        i += 1;
    }
    false
}

impl Project {
    /// No tag occurs twice.
    pub open spec fn wf(&self) -> bool {
        self@.tags.no_duplicates()
    }

    /// A project at `path` that was never selected, first seen at `now`.
    pub fn new_at(path: String, now: i64) -> (p: Project)
        ensures
            p@ == (ProjectView {
                path: path@,
                tags: Seq::empty(),
                last_accessed: now as int,
                access_count: 0,
            }),
            p.wf(),
    {
        let p = Project { path, tags: Vec::new(), last_accessed: now, access_count: 0 };
        assert(p@.tags == Seq::<Seq<char>>::empty());
        p
    }

    /// A project at `path` that was never selected, first seen at the present moment.
    pub fn new(path: String) -> (p: Project)
        ensures
            p@.path == path@,
            p@.tags == Seq::<Seq<char>>::empty(),
            p@.access_count == 0,
            p.wf(),
    {
        Project::new_at(path, current_timestamp())
    }

    /// The project with its tags replaced by `tags`, lowercased, each kept once.
    pub fn with_tags(self, tags: Vec<String>) -> (p: Project)
        ensures
            p@ == (ProjectView { tags: merged_tags(Seq::empty(), texts(tags@)), ..self@ }),
            p.wf(),
    {
        let mut p = self;
        p.tags = Vec::new();
        assert(texts(p.tags@) == Seq::<Seq<char>>::empty());
        p.add_tags(tags);
        p
    }

    /// Records a selection at `now`: the time is refreshed and the count grows by one.
    pub fn update_access_at(&mut self, now: i64)
        requires
            old(self).access_count < u32::MAX,
        ensures
            final(self)@ == (ProjectView {
                last_accessed: now as int,
                access_count: old(self)@.access_count + 1,
                ..old(self)@
            }),
    {
        self.last_accessed = now;
        self.access_count = self.access_count + 1;
    }

    /// Records a selection at the present moment.
    pub fn update_access(&mut self)
        requires
            old(self).access_count < u32::MAX,
        ensures
            final(self)@.access_count == old(self)@.access_count + 1,
            final(self)@.path == old(self)@.path,
            final(self)@.tags == old(self)@.tags,
    {
        self.update_access_at(current_timestamp());
    }

    /// Adds each of `tags`, lowercased, that the project does not have yet.
    pub fn add_tags(&mut self, tags: Vec<String>)
        ensures
            final(self)@ == (ProjectView {
                tags: merged_tags(old(self)@.tags, texts(tags@)),
                ..old(self)@
            }),
            old(self).wf() ==> final(self).wf(),
    {
        self.add_tag_list(tags.as_slice());
    }

    /// Adds each of `tags`, lowercased, that the project does not have yet.
    pub fn add_tag_list(&mut self, tags: &[String])
        ensures
            final(self)@ == (ProjectView {
                tags: merged_tags(old(self)@.tags, texts(tags@)),
                ..old(self)@
            }),
            old(self).wf() ==> final(self).wf(),
    {
        let mut i: usize = 0;
        while i < tags.len()
            invariant
                i <= tags.len(),
                self@ == (ProjectView {
                    tags: merged_tags(old(self)@.tags, texts(tags@.take(i as int))),
                    ..old(self)@
                }),
            decreases tags.len() - i,
        {
            let lower = to_lowercase(tags[i].as_str());
            proof {
                let upto = texts(tags@.take(i + 1));
                assert(upto.drop_last() == texts(tags@.take(i as int)));
            }
            if !has_tag(&self.tags, &lower) {
                assert(texts(self.tags@.push(lower)) == texts(self.tags@).push(lower@));
                self.tags.push(lower);
            }
            i += 1;
        }
        proof {
            assert(tags@.take(i as int) == tags@);
            lemma_merged_tags(old(self)@.tags, texts(tags@));
        }
    }

    /// Removes every tag that equals one of `tags`, lowercased.
    pub fn remove_tags(&mut self, tags: &[String])
        ensures
            final(self)@ == (ProjectView {
                tags: tags_except(old(self)@.tags, lowered(texts(tags@))),
                ..old(self)@
            }),
            old(self).wf() ==> final(self).wf(),
    {
        let mut unwanted: Vec<String> = Vec::new();
        let mut i: usize = 0;
        while i < tags.len()
            invariant
                i <= tags.len(),
                texts(unwanted@) == lowered(texts(tags@.take(i as int))),
            decreases tags.len() - i,
        {
            let lower = to_lowercase(tags[i].as_str());
            proof {
                assert(tags@.take(i + 1) == tags@.take(i as int).push(tags@[i as int]));
                assert(lowered(texts(tags@.take(i as int).push(tags@[i as int]))) == lowered(
                    texts(tags@.take(i as int)),
                ).push(lower@));
            }
            unwanted.push(lower);
            i += 1;
        }
        assert(tags@.take(i as int) == tags@);
        let mut current: Vec<String> = Vec::new();
        std::mem::swap(&mut current, &mut self.tags);
        assert(texts(self.tags@) == Seq::<Seq<char>>::empty());
        assert(texts(current@.take(0)) == Seq::<Seq<char>>::empty());
        let ghost removed = texts(unwanted@);
        for tag in it: current
            invariant
                it.seq() == current@,
                texts(unwanted@) == removed,
                self@ == (ProjectView {
                    tags: tags_except(texts(current@.take(it.index() as int)), removed),
                    ..old(self)@
                }),
        {
            proof {
                let k = it.index() as int;
                let upto = texts(current@.take(k + 1));
                assert(upto.drop_last() == texts(current@.take(k)));
            }
            if !has_tag(&unwanted, &tag) {
                assert(texts(self.tags@.push(tag)) == texts(self.tags@).push(tag@));
                self.tags.push(tag);
            }
        }
        proof {
            assert(current@.take(current@.len() as int) == current@);
            lemma_tags_except(old(self)@.tags, removed);
        }
    }

    /// Whether some tag is `filter` itself or begins with `filter` and a `/`.
    /// The filter is taken as it stands.
    pub fn has_tag_under(&self, filter: &str) -> (r: bool)
        ensures
            r == any_tag_matches(self@.tags, filter@),
    {
        let exact = filter.to_owned();
        let mut below = filter.to_owned();
        push_char(&mut below, '/');
        let mut i: usize = 0;
        while i < self.tags.len()
            invariant
                i <= self.tags.len(),
                exact@ == filter@,
                below@ == filter@.push('/'),
                forall|j: int| 0 <= j < i ==> !tag_matches(#[trigger] texts(self.tags@)[j], filter@),
            decreases self.tags.len() - i,
        {
            if self.tags[i] == exact || starts_with(self.tags[i].as_str(), below.as_str()) {
                assert(tag_matches(texts(self.tags@)[i as int], filter@));
                return true;
            }
            i += 1;
        }
        false
    }

    /// Whether the project matches a tag filter, whatever the filter's case.
    pub fn matches_tag_filter(&self, filter_tag: &str) -> (r: bool)
        ensures
            r == any_tag_matches(self@.tags, lowercase(filter_tag@)),
    {
        let filter_lower = to_lowercase(filter_tag);
        self.has_tag_under(filter_lower.as_str())
    }

    /// Whether the project's path points at something on disk right now.
    pub fn exists_on_disk(&self) -> (r: bool) {
        path_exists(self.path.as_str())
    }

    /// Whether no tag occurs twice.
    pub fn is_well_formed(&self) -> (r: bool)
        ensures
            r == self.wf(),
    {
        let mut j: usize = 0;
        while j < self.tags.len()
            invariant
                j <= self.tags.len(),
                forall|a: int, b: int|
                    0 <= a < b < j ==> #[trigger] texts(self.tags@)[a] != #[trigger] texts(
                        self.tags@,
                    )[b],
            decreases self.tags.len() - j,
        {
            let mut i: usize = 0;
            while i < j
                invariant
                    i <= j < self.tags.len(),
                    forall|a: int| 0 <= a < i ==> #[trigger] texts(self.tags@)[a] != texts(
                        self.tags@,
                    )[j as int],
                decreases j - i,
            {
                if self.tags[i] == self.tags[j] {
                    assert(texts(self.tags@)[i as int] == texts(self.tags@)[j as int]);
                    return false;
                }
                i += 1;
            }
            j += 1;
        }
        true
    }
}

/// Merging keeps the tags that were there, in place, and adds no tag twice.
pub proof fn lemma_merged_tags(tags: Seq<Seq<char>>, added: Seq<Seq<char>>)
    ensures
        tags.is_prefix_of(merged_tags(tags, added)),
        tags.no_duplicates() ==> merged_tags(tags, added).no_duplicates(),
        forall|t: Seq<char>| #[trigger]
            merged_tags(tags, added).contains(t) <==> tags.contains(t) || lowered(added).contains(
                t,
            ),
    decreases added.len(),
{
    let merged = merged_tags(tags, added);
    if added.len() == 0 {
        assert forall|t: Seq<char>| #[trigger] merged.contains(t) <==> tags.contains(t) || lowered(
            added,
        ).contains(t) by {
            assert(lowered(added).len() == 0);
        }
    } else {
        let front = added.drop_last();
        let before = merged_tags(tags, front);
        let tag = lowercase(added.last());
        lemma_merged_tags(tags, front);
        assert forall|t: Seq<char>| #[trigger] merged.contains(t) <==> tags.contains(t) || lowered(
            added,
        ).contains(t) by {
            assert(lowered(added)[added.len() - 1] == tag);
            if merged.contains(t) {
                let i = choose|i: int| 0 <= i < merged.len() && merged[i] == t;
                if i < before.len() {
                    if lowered(front).contains(t) {
                        let j = choose|j: int| 0 <= j < front.len() && lowered(front)[j] == t;
                        assert(lowered(added)[j] == t);
                    }
                }
            }
            if tags.contains(t) {
                let i = choose|i: int| 0 <= i < before.len() && before[i] == t;
                assert(merged[i] == t);
            }
            if lowered(added).contains(t) {
                let j = choose|j: int| 0 <= j < lowered(added).len() && lowered(added)[j] == t;
                if j < front.len() {
                    assert(lowered(front)[j] == t);
                    assert(before.contains(t));
                    let i = choose|i: int| 0 <= i < before.len() && before[i] == t;
                    assert(merged[i] == t);
                } else if !before.contains(t) {
                    assert(merged[before.len() as int] == t);
                }
            }
        }
    }
}

/// Removing tags leaves the others in their order, and no tag twice where none was.
pub proof fn lemma_tags_except(tags: Seq<Seq<char>>, removed: Seq<Seq<char>>)
    ensures
        forall|t: Seq<char>| #[trigger]
            tags_except(tags, removed).contains(t) <==> tags.contains(t) && !removed.contains(t),
        tags.no_duplicates() ==> tags_except(tags, removed).no_duplicates(),
    decreases tags.len(),
{
    let left = tags_except(tags, removed);
    if tags.len() > 0 {
        let front = tags.drop_last();
        let rest = tags_except(front, removed);
        lemma_tags_except(front, removed);
        assert forall|t: Seq<char>| #[trigger] left.contains(t) <==> tags.contains(t)
            && !removed.contains(t) by {
            if left.contains(t) {
                let i = choose|i: int| 0 <= i < left.len() && left[i] == t;
                if i < rest.len() {
                    assert(rest.contains(t));
                } else {
                    assert(tags[tags.len() - 1] == t);
                }
            }
            if tags.contains(t) && !removed.contains(t) {
                let j = choose|j: int| 0 <= j < tags.len() && tags[j] == t;
                if j < front.len() {
                    assert(front[j] == t);
                    assert(rest.contains(t));
                    let i = choose|i: int| 0 <= i < rest.len() && rest[i] == t;
                    assert(left[i] == t);
                } else {
                    assert(left[rest.len() as int] == t);
                }
            }
        }
        if tags.no_duplicates() && rest.contains(tags.last()) {
            let j = choose|j: int| 0 <= j < front.len() && front[j] == tags.last();
            assert(tags[j] == tags[tags.len() - 1]);
        }
    }
}

/// The tracked projects, in the order in which they were added.
#[derive(Debug)]
pub struct ProjectStore {
    projects: Vec<Project>,
}

/// The views of a sequence of projects.
pub open spec fn views(projects: Seq<Project>) -> Seq<ProjectView> {
    projects.map_values(|p: Project| p@)
}

/// The views of a sequence of borrowed projects.
pub open spec fn ref_views(projects: Seq<&Project>) -> Seq<ProjectView> {
    projects.map_values(|p: &Project| p@)
}

/// Some project of the sequence has this path.
pub open spec fn tracks(projects: Seq<ProjectView>, path: Seq<char>) -> bool {
    exists|i: int| 0 <= i < projects.len() && (#[trigger] projects[i]).path == path
}

/// Position `i` holds the first project with this path.
pub open spec fn is_first_at(projects: Seq<ProjectView>, path: Seq<char>, i: int) -> bool {
    &&& 0 <= i < projects.len()
    &&& projects[i].path == path
    &&& forall|j: int| 0 <= j < i ==> (#[trigger] projects[j]).path != path
}

/// Where a path is tracked, some position holds the first project at it, and
/// only one position does.
pub proof fn lemma_first_at(projects: Seq<ProjectView>, path: Seq<char>)
    ensures
        tracks(projects, path) <==> exists|i: int| is_first_at(projects, path, i),
        forall|i: int, j: int|
            is_first_at(projects, path, i) && is_first_at(projects, path, j) ==> i == j,
    decreases projects.len(),
{
    if tracks(projects, path) {
        let k = choose|k: int| 0 <= k < projects.len() && (#[trigger] projects[k]).path == path;
        let front = projects.take(k);
        if tracks(front, path) {
            lemma_first_at(front, path);
            let i = choose|i: int| is_first_at(front, path, i);
            assert forall|j: int| 0 <= j < i implies (#[trigger] projects[j]).path != path by {
                assert(front[j] == projects[j]);
            }
            assert(is_first_at(projects, path, i));
        } else {
            assert forall|j: int| 0 <= j < k implies (#[trigger] projects[j]).path != path by {
                assert(front[j] == projects[j]);
            }
            assert(is_first_at(projects, path, k));
        }
    }
}

/// No two projects share a path, and no project has a tag twice.
pub open spec fn well_formed(projects: Seq<ProjectView>) -> bool {
    &&& forall|i: int, j: int|
        0 <= i < j < projects.len() ==> (#[trigger] projects[i]).path != (
        #[trigger] projects[j]).path
    &&& forall|i: int| 0 <= i < projects.len() ==> (#[trigger] projects[i]).tags.no_duplicates()
}

/// A project as it stands after it was added again at `now` with the tags `added`.
pub open spec fn refreshed(p: ProjectView, added: Seq<Seq<char>>, now: int) -> ProjectView {
    ProjectView { last_accessed: now, tags: merged_tags(p.tags, added), ..p }
}

/// Adding a path that is tracked already creates no second record: the record
/// at the path takes the union of the tags, each once, and the new time; its
/// count and every other record stay as they were.
pub proof fn lemma_add_tracked(projects: Seq<ProjectView>, added: ProjectView, now: int, i: int)
    requires
        well_formed(projects),
        is_first_at(projects, added.path, i),
    ensures
        ({
            let after = projects.update(i, refreshed(projects[i], added.tags, now));
            &&& after.len() == projects.len()
            &&& well_formed(after)
            &&& after[i].path == projects[i].path
            &&& after[i].access_count == projects[i].access_count
            &&& after[i].last_accessed == now
            &&& forall|t: Seq<char>| #[trigger]
                after[i].tags.contains(t) <==> projects[i].tags.contains(t) || lowered(
                    added.tags,
                ).contains(t)
            &&& forall|j: int| 0 <= j < projects.len() && j != i ==> after[j] == projects[j]
        }),
{
    lemma_merged_tags(projects[i].tags, added.tags);
}

/// The items whose flag is set, in their order.
pub open spec fn kept<T>(items: Seq<T>, keep: Seq<bool>) -> Seq<T>
    decreases items.len(),
{
    if items.len() == 0 || keep.len() == 0 {
        Seq::empty()
    } else {
        let before = kept(items.drop_last(), keep.drop_last());
        if keep.last() {
            before.push(items.last())
        } else {
            before
        }
    }
}

/// How many of the flags equal `value`.
pub open spec fn count_of(flags: Seq<bool>, value: bool) -> nat
    decreases flags.len(),
{
    if flags.len() == 0 {
        0
    } else {
        count_of(flags.drop_last(), value) + if flags.last() == value {
            1nat
        } else {
            0nat
        }
    }
}

/// What is kept by flags is exactly what had its flag set: as many items as
/// flags are set, and each of them an item whose flag is set.
pub proof fn lemma_kept<T>(items: Seq<T>, keep: Seq<bool>)
    requires
        keep.len() == items.len(),
    ensures
        kept(items, keep).len() == count_of(keep, true),
        count_of(keep, true) + count_of(keep, false) == items.len(),
        forall|x: T| #[trigger]
            kept(items, keep).contains(x) <==> exists|i: int|
                0 <= i < items.len() && keep[i] && items[i] == x,
    decreases items.len(),
{
    let left = kept(items, keep);
    if items.len() > 0 {
        let front = items.drop_last();
        let flags = keep.drop_last();
        let rest = kept(front, flags);
        lemma_kept(front, flags);
        assert forall|x: T| #[trigger]
            left.contains(x) <==> exists|i: int|
                0 <= i < items.len() && keep[i] && items[i] == x by {
            if left.contains(x) {
                let m = choose|m: int| 0 <= m < left.len() && left[m] == x;
                if m < rest.len() {
                    assert(rest.contains(x));
                } else {
                    assert(keep[items.len() - 1] && items[items.len() - 1] == x);
                }
            }
            if exists|i: int| 0 <= i < items.len() && keep[i] && items[i] == x {
                let i = choose|i: int| 0 <= i < items.len() && keep[i] && items[i] == x;
                if i < front.len() {
                    assert(flags[i] && front[i] == x);
                    assert(rest.contains(x));
                    let m = choose|m: int| 0 <= m < rest.len() && rest[m] == x;
                    assert(left[m] == x);
                } else {
                    assert(left[left.len() - 1] == x);
                }
            }
        }
    } else {
        assert(left.len() == 0);
    }
}

/// Keeping by flags that agree with a predicate is filtering by the predicate.
pub proof fn lemma_kept_is_filter<T>(items: Seq<T>, keep: Seq<bool>, pred: spec_fn(T) -> bool)
    requires
        keep.len() == items.len(),
        forall|i: int| 0 <= i < items.len() ==> #[trigger] keep[i] == pred(items[i]),
    ensures
        kept(items, keep) == items.filter(pred),
    decreases items.len(),
{
    reveal(Seq::filter);
    if items.len() > 0 {
        lemma_kept_is_filter(items.drop_last(), keep.drop_last(), pred);
    }
}

/// Some tag of the list satisfies one of the filters, lowercased.
pub open spec fn matches_any_filter(tags: Seq<Seq<char>>, filters: Seq<Seq<char>>) -> bool {
    exists|k: int|
        0 <= k < filters.len() && any_tag_matches(tags, lowercase(#[trigger] filters[k]))
}

/// Tag filters compose with OR: a project passes a list of filters exactly
/// when it passes one of the parts of the list.
pub proof fn lemma_tag_filters_compose(
    tags: Seq<Seq<char>>,
    first: Seq<Seq<char>>,
    second: Seq<Seq<char>>,
)
    ensures
        matches_any_filter(tags, first + second) <==> matches_any_filter(tags, first)
            || matches_any_filter(tags, second),
{
    let both = first + second;
    if matches_any_filter(tags, both) {
        let k = choose|k: int|
            0 <= k < both.len() && any_tag_matches(tags, lowercase(#[trigger] both[k]));
        if k < first.len() {
            assert(both[k] == first[k]);
        } else {
            assert(both[k] == second[k - first.len()]);
        }
    }
    if matches_any_filter(tags, first) {
        let k = choose|k: int|
            0 <= k < first.len() && any_tag_matches(tags, lowercase(#[trigger] first[k]));
        assert(both[k] == first[k]);
    }
    if matches_any_filter(tags, second) {
        let k = choose|k: int|
            0 <= k < second.len() && any_tag_matches(tags, lowercase(#[trigger] second[k]));
        assert(both[first.len() + k] == second[k]);
    }
}

/// The projects that satisfy one of the tag filters; all of them where no filter is given.
pub open spec fn tagged_with_any(projects: Seq<ProjectView>, filters: Seq<Seq<char>>) -> Seq<
    ProjectView,
> {
    if filters.len() == 0 {
        projects
    } else {
        projects.filter(|p: ProjectView| matches_any_filter(p.tags, filters))
    }
}

/// The items at the positions that `order` lists, in that order.
pub open spec fn arranged<T>(items: Seq<T>, order: Seq<int>) -> Seq<T> {
    order.map_values(|i: int| items[i])
}

/// The borrowed projects whose flag is set, in their order.
pub fn select_flagged<'a>(items: &[&'a Project], keep: &Vec<bool>) -> (r: Vec<&'a Project>)
    requires
        keep.len() == items.len(),
    ensures
        r@ == kept(items@, keep@),
        ref_views(r@) == kept(ref_views(items@), keep@),
{
    let mut r: Vec<&'a Project> = Vec::new();
    let mut i: usize = 0;
    while i < items.len()
        invariant
            i <= items.len(),
            keep.len() == items.len(),
            r@ == kept(items@.take(i as int), keep@.take(i as int)),
            ref_views(r@) == kept(ref_views(items@.take(i as int)), keep@.take(i as int)),
        decreases items.len() - i,
    {
        proof {
            assert(items@.take(i + 1).drop_last() == items@.take(i as int));
            assert(keep@.take(i + 1).drop_last() == keep@.take(i as int));
            assert(ref_views(items@.take(i + 1)).drop_last() == ref_views(items@.take(i as int)));
        }
        if keep[i] {
            r.push(items[i]);
        }
        i += 1;
    }
    proof {
        assert(items@.take(i as int) == items@);
        assert(keep@.take(i as int) == keep@);
    }
    r
}

/// The projects by descending score, projects of equal score in their order.
/// `scores[i]` stands for the score of the project at position `i`: any
/// integers will do that order as the scores do.
pub fn rank_projects<'a>(projects: &[&'a Project], scores: &Vec<u64>) -> (r: Vec<&'a Project>)
    requires
        scores.len() == projects.len(),
    ensures
        exists|order: Seq<int>|
            is_ranking(scores@, order) && r@ == arranged(projects@, order) && ref_views(r@)
                == arranged(ref_views(projects@), order),
{
    let order = rank_by_key(scores);
    let mut r: Vec<&'a Project> = Vec::new();
    let mut i: usize = 0;
    while i < order.len()
        invariant
            i <= order.len(),
            scores.len() == projects.len(),
            is_ranking(scores@, positions(order@)),
            r@ == arranged(projects@, positions(order@).take(i as int)),
            ref_views(r@) == arranged(ref_views(projects@), positions(order@).take(i as int)),
        decreases order.len() - i,
    {
        assert(0 <= positions(order@)[i as int] < scores.len());
        r.push(projects[order[i]]);
        i += 1;
    }
    r
}

/// The projects whose flag is set, in their order.
fn retain_flagged(projects: Vec<Project>, keep: &Vec<bool>) -> (r: Vec<Project>)
    requires
        keep.len() == projects.len(),
    ensures
        views(r@) == kept(views(projects@), keep@),
        r.len() + count_of(keep@, false) == projects.len(),
{
    let mut r: Vec<Project> = Vec::new();
    let mut n: usize = 0;
    for p in it: projects
        invariant
            it.seq() == projects@,
            keep.len() == projects.len(),
            n == it.index(),
            views(r@) == kept(
                views(projects@.take(it.index() as int)),
                keep@.take(it.index() as int),
            ),
            r.len() + count_of(keep@.take(it.index() as int), false) == it.index(),
    {
        proof {
            let i = it.index() as int;
            assert(keep@.take(i + 1).drop_last() == keep@.take(i));
            assert(views(projects@.take(i + 1)).drop_last() == views(projects@.take(i)));
        }
        if keep[n] {
            r.push(p);
        }
        n += 1;
    }
    proof {
        assert(projects@.take(projects@.len() as int) == projects@);
        assert(keep@.take(keep@.len() as int) == keep@);
    }
    r
}

/// Each text comes before the next in dictionary order, so none occurs twice.
pub open spec fn strictly_sorted(tags: Seq<Seq<char>>) -> bool {
    forall|i: int, j: int|
        0 <= i < j < tags.len() ==> text_less(#[trigger] tags[i], #[trigger] tags[j])
}

/// Some project of the sequence has this tag.
pub open spec fn is_tag_of_some(projects: Seq<ProjectView>, tag: Seq<char>) -> bool {
    exists|i: int| 0 <= i < projects.len() && (#[trigger] projects[i]).tags.contains(tag)
}

/// Puts `tag` into a sorted list at its place, unless the list has it.
fn insert_sorted(sorted: &mut Vec<String>, tag: &String)
    requires
        strictly_sorted(texts(old(sorted)@)),
    ensures
        strictly_sorted(texts(final(sorted)@)),
        forall|t: Seq<char>| #[trigger]
            texts(final(sorted)@).contains(t) <==> texts(old(sorted)@).contains(t) || t == tag@,
{
    let mut p: usize = 0;
    while p < sorted.len() && text_before(sorted[p].as_str(), tag.as_str())
        invariant
            p <= sorted.len(),
            forall|q: int| 0 <= q < p ==> text_less(#[trigger] texts(sorted@)[q], tag@),
        decreases sorted.len() - p,
    {
        p += 1;
    }
    let ghost before = texts(sorted@);
    if p < sorted.len() && sorted[p] == *tag {
        assert(before[p as int] == tag@);
        return ;
    }
    let copy = tag.clone();
    sorted.insert(p, copy);
    proof {
        let after = texts(sorted@);
        assert forall|i: int, j: int| 0 <= i < j < after.len() implies text_less(
            #[trigger] after[i],
            #[trigger] after[j],
        ) by {
            if j < p {
                assert(after[i] == before[i] && after[j] == before[j]);
            } else if j == p {
                assert(after[i] == before[i]);
            } else if i < p {
                assert(after[i] == before[i] && after[j] == before[j - 1]);
            } else if i == p {
                lemma_text_order(before[p as int], tag@, tag@);
                if j - 1 > p {
                    lemma_text_order(tag@, before[p as int], before[j - 1]);
                }
            } else {
                assert(after[i] == before[i - 1] && after[j] == before[j - 1]);
            }
        }
        assert forall|t: Seq<char>| #[trigger]
            after.contains(t) <==> before.contains(t) || t == tag@ by {
            if after.contains(t) {
                let i = choose|i: int| 0 <= i < after.len() && after[i] == t;
                if i < p {
                    assert(before[i] == t);
                } else if i > p {
                    assert(before[i - 1] == t);
                }
            }
            if before.contains(t) {
                let i = choose|i: int| 0 <= i < before.len() && before[i] == t;
                if i < p {
                    assert(after[i] == t);
                } else {
                    assert(after[i + 1] == t);
                }
            }
            if t == tag@ {
                assert(after[p as int] == t);
            }
        }
    }
}

impl Default for ProjectStore {
    fn default() -> (s: ProjectStore)
        ensures
            s@ == Seq::<ProjectView>::empty(),
    {
        ProjectStore::new()
    }
}

impl View for ProjectStore {
    type V = Seq<ProjectView>;

    closed spec fn view(&self) -> Seq<ProjectView> {
        views(self.projects@)
    }
}

impl ProjectStore {
    /// No two projects of the store share a path, and no project has a tag twice.
    pub open spec fn wf(&self) -> bool {
        well_formed(self@)
    }

    /// A store without projects.
    pub fn new() -> (s: ProjectStore)
        ensures
            s@ == Seq::<ProjectView>::empty(),
            s.wf(),
    {
        ProjectStore { projects: Vec::new() }
    }

    /// A store that holds the given records in their order.
    pub fn from_projects(projects: Vec<Project>) -> (s: ProjectStore)
        ensures
            s@ == views(projects@),
    {
        ProjectStore { projects }
    }

    /// The records of the store in their order.
    pub fn projects(&self) -> (r: &Vec<Project>)
        ensures
            views(r@) == self@,
    {
        &self.projects
    }

    /// The records of the store in their order, the store given up.
    pub fn into_projects(self) -> (r: Vec<Project>)
        ensures
            views(r@) == self@,
    {
        self.projects
    }

    /// The number of projects.
    pub fn len(&self) -> (n: usize)
        ensures
            n == self@.len(),
    {
        self.projects.len()
    }

    /// Whether the store holds no project.
    pub fn is_empty(&self) -> (r: bool)
        ensures
            r == (self@.len() == 0),
    {
        self.projects.len() == 0
    }

    /// Whether no two projects share a path and no project has a tag twice.
    pub fn is_well_formed(&self) -> (r: bool)
        ensures
            r == self.wf(),
    {
        let mut j: usize = 0;
        while j < self.projects.len()
            invariant
                j <= self.projects.len(),
                well_formed(self@.take(j as int)),
            decreases self.projects.len() - j,
        {
            if !self.projects[j].is_well_formed() {
                assert(!self@[j as int].tags.no_duplicates());
                return false;
            }
            let mut i: usize = 0;
            while i < j
                invariant
                    i <= j < self.projects.len(),
                    forall|a: int| 0 <= a < i ==> (#[trigger] self@[a]).path != self@[j as int].path,
                decreases j - i,
            {
                if self.projects[i].path == self.projects[j].path {
                    assert(self@[i as int].path == self@[j as int].path);
                    return false;
                }
                i += 1;
            }
            proof {
                let upto = self@.take(j + 1);
                assert forall|a: int, b: int| 0 <= a < b < upto.len() implies (
                #[trigger] upto[a]).path != (#[trigger] upto[b]).path by {
                    if b < j {
                        assert(self@.take(j as int)[a].path != self@.take(j as int)[b].path);
                    }
                }
                assert forall|a: int| 0 <= a < upto.len() implies (
                #[trigger] upto[a]).tags.no_duplicates() by {
                    if a < j {
                        assert(self@.take(j as int)[a].tags.no_duplicates());
                    }
                }
            }
            j += 1;
        }
        assert(self@.take(j as int) == self@);
        true
    }

    /// The position of the first project at `path`.
    pub fn position_of(&self, path: &str) -> (r: Option<usize>)
        ensures
            r is Some <==> tracks(self@, path@),
            r matches Some(i) ==> is_first_at(self@, path@, i as int),
    {
        let wanted = path.to_owned();
        let mut i: usize = 0;
        while i < self.projects.len()
            invariant
                i <= self.projects.len(),
                wanted@ == path@,
                forall|j: int| 0 <= j < i ==> (#[trigger] self@[j]).path != path@,
            decreases self.projects.len() - i,
        {
            if self.projects[i].path == wanted {
                assert(self@[i as int].path == path@);
                return Some(i);
            }
            i += 1;
        }
        None
    }

    /// The first project at `path`.
    pub fn find_by_path(&self, path: &str) -> (r: Option<&Project>)
        ensures
            r is Some <==> tracks(self@, path@),
            r matches Some(p) ==> exists|i: int| is_first_at(self@, path@, i) && p@ == self@[i],
    {
        match self.position_of(path) {
            Some(i) => Some(&self.projects[i]),
            None => None,
        }
    }

    /// The first project at `path`, to be changed in place.
    pub fn find_by_path_mut(&mut self, path: &str) -> (r: Option<&mut Project>)
        ensures
            r is Some <==> tracks(old(self)@, path@),
            r is None ==> final(self)@ == old(self)@,
            r matches Some(p) ==> exists|i: int|
                is_first_at(old(self)@, path@, i) && p@ == old(self)@[i] && final(self)@ == old(
                    self,
                )@.update(i, final(p)@),
    {
        match self.position_of(path) {
            Some(i) => Some(&mut self.projects[i]),
            None => None,
        }
    }

    /// Adds a project seen at `now`. Where its path is tracked already, nothing is
    /// added: the tracked project takes the new tags and the time `now`, and keeps
    /// its count.
    pub fn add_at(&mut self, project: Project, now: i64) -> (added: bool)
        ensures
            added == !tracks(old(self)@, project@.path),
            added ==> final(self)@ == old(self)@.push(project@),
            !added ==> exists|i: int|
                is_first_at(old(self)@, project@.path, i) && final(self)@ == old(self)@.update(
                    i,
                    refreshed(old(self)@[i], project@.tags, now as int),
                ),
            old(self).wf() && project.wf() ==> final(self).wf(),
    {
        match self.position_of(project.path.as_str()) {
            Some(i) => {
                let existing = &mut self.projects[i];
                existing.last_accessed = now;
                existing.add_tags(project.tags);
                proof {
                    let before = old(self)@;
                    assert(self@ == before.update(
                        i as int,
                        refreshed(before[i as int], project@.tags, now as int),
                    ));
                    lemma_merged_tags(before[i as int].tags, project@.tags);
                }
                false
            },
            None => {
                self.projects.push(project);
                true
            },
        }
    }

    /// Adds a project seen at the present moment; see `add_at`.
    pub fn add(&mut self, project: Project) -> (added: bool)
        ensures
            added == !tracks(old(self)@, project@.path),
            added ==> final(self)@ == old(self)@.push(project@),
            !added ==> exists|i: int, now: int|
                is_first_at(old(self)@, project@.path, i) && final(self)@ == old(self)@.update(
                    i,
                    refreshed(old(self)@[i], project@.tags, now),
                ),
            old(self).wf() && project.wf() ==> final(self).wf(),
    {
        self.add_at(project, current_timestamp())
    }

    /// Removes every project at `path` and says whether there was one.
    pub fn remove(&mut self, path: &str) -> (removed: bool)
        ensures
            removed == tracks(old(self)@, path@),
            final(self)@ == old(self)@.filter(|p: ProjectView| p.path != path@),
            old(self).wf() ==> final(self).wf(),
    {
        let unwanted = path.to_owned();
        let mut keep: Vec<bool> = Vec::new();
        let mut i: usize = 0;
        while i < self.projects.len()
            invariant
                i <= self.projects.len(),
                unwanted@ == path@,
                keep.len() == i,
                forall|j: int| 0 <= j < i ==> #[trigger] keep@[j] == (self@[j].path != path@),
            decreases self.projects.len() - i,
        {
            keep.push(self.projects[i].path != unwanted);
            i += 1;
        }
        let before = self.projects.len();
        let mut current: Vec<Project> = Vec::new();
        std::mem::swap(&mut current, &mut self.projects);
        self.projects = retain_flagged(current, &keep);
        proof {
            let pred = |p: ProjectView| p.path != path@;
            lemma_kept_is_filter(old(self)@, keep@, pred);
            lemma_filter_keeps_order(old(self)@, pred);
            old(self)@.lemma_filter_len(pred);
            if tracks(old(self)@, path@) {
                if self@.len() == old(self)@.len() {
                    lemma_filter_all(old(self)@, pred);
                }
            } else {
                lemma_filter_all(old(self)@, pred);
            }
        }
        self.projects.len() < before
    }

    /// Keeps the projects whose flag in `present` is set and counts the others.
    pub fn retain_present(&mut self, present: &Vec<bool>) -> (removed: usize)
        requires
            present.len() == old(self)@.len(),
        ensures
            final(self)@ == kept(old(self)@, present@),
            removed == count_of(present@, false),
            removed == old(self)@.len() - final(self)@.len(),
            old(self).wf() ==> final(self).wf(),
    {
        let before = self.projects.len();
        let mut current: Vec<Project> = Vec::new();
        std::mem::swap(&mut current, &mut self.projects);
        self.projects = retain_flagged(current, present);
        proof {
            lemma_kept_keeps_order(old(self)@, present@);
        }
        before - self.projects.len()
    }

    /// Removes the projects whose path is not on disk at the moment of the call
    /// and counts them.
    pub fn remove_missing(&mut self) -> (removed: usize)
        ensures
            exists|present: Seq<bool>|
                present.len() == old(self)@.len() && final(self)@ == kept(old(self)@, present)
                    && removed == count_of(present, false),
            removed == old(self)@.len() - final(self)@.len(),
            old(self).wf() ==> final(self).wf(),
    {
        let mut present: Vec<bool> = Vec::new();
        let mut i: usize = 0;
        while i < self.projects.len()
            invariant
                i <= self.projects.len(),
                present.len() == i,
            decreases self.projects.len() - i,
        {
            present.push(self.projects[i].exists_on_disk());
            i += 1;
        }
        self.retain_present(&present)
    }

    /// Every project of the store, borrowed, in the store's order.
    pub fn all(&self) -> (r: Vec<&Project>)
        ensures
            ref_views(r@) == self@,
    {
        let mut r: Vec<&Project> = Vec::new();
        let mut i: usize = 0;
        while i < self.projects.len()
            invariant
                i <= self.projects.len(),
                ref_views(r@) == self@.take(i as int),
            decreases self.projects.len() - i,
        {
            proof {
                assert(self@.take(i + 1) == self@.take(i as int).push(self@[i as int]));
            }
            r.push(&self.projects[i]);
            i += 1;
        }
        r
    }

    /// The projects that satisfy one of the tag filters, whatever the filters' case;
    /// every project where no filter is given.
    pub fn filter_by_tags(&self, tags: &[String]) -> (r: Vec<&Project>)
        ensures
            ref_views(r@) == tagged_with_any(self@, texts(tags@)),
    {
        let everything = self.all();
        if tags.len() == 0 {
            return everything;
        }
        let mut keep: Vec<bool> = Vec::new();
        let mut i: usize = 0;
        while i < self.projects.len()
            invariant
                i <= self.projects.len(),
                keep.len() == i,
                forall|j: int|
                    0 <= j < i ==> #[trigger] keep@[j] == matches_any_filter(
                        self@[j].tags,
                        texts(tags@),
                    ),
            decreases self.projects.len() - i,
        {
            let mut hit = false;
            let mut k: usize = 0;
            while k < tags.len() && !hit
                invariant
                    k <= tags.len(),
                    i < self.projects.len(),
                    hit ==> matches_any_filter(self@[i as int].tags, texts(tags@)),
                    !hit ==> forall|m: int|
                        0 <= m < k ==> !any_tag_matches(
                            self@[i as int].tags,
                            lowercase(#[trigger] texts(tags@)[m]),
                        ),
                decreases tags.len() - k,
            {
                if self.projects[i].matches_tag_filter(tags[k].as_str()) {
                    assert(texts(tags@)[k as int] == tags@[k as int]@);
                    hit = true;
                }
                k += 1;
            }
            keep.push(hit);
            i += 1;
        }
        proof {
            lemma_kept_is_filter(
                self@,
                keep@,
                |p: ProjectView| matches_any_filter(p.tags, texts(tags@)),
            );
        }
        select_flagged(everything.as_slice(), &keep)
    }

    /// The projects by descending score, projects of equal score in the store's
    /// order. `scores[i]` stands for the score of the project at position `i`.
    pub fn sorted_by_frecency(&self, scores: &Vec<u64>) -> (r: Vec<&Project>)
        requires
            scores.len() == self@.len(),
        ensures
            exists|order: Seq<int>|
                is_ranking(scores@, order) && ref_views(r@) == arranged(self@, order),
    {
        let everything = self.all();
        rank_projects(everything.as_slice(), scores)
    }

    /// Every tag that some project has, once, in dictionary order.
    pub fn all_tags(&self) -> (tags: Vec<String>)
        ensures
            strictly_sorted(texts(tags@)),
            forall|t: Seq<char>| #[trigger] texts(tags@).contains(t) <==> is_tag_of_some(self@, t),
    {
        let mut tags: Vec<String> = Vec::new();
        let mut i: usize = 0;
        while i < self.projects.len()
            invariant
                i <= self.projects.len(),
                strictly_sorted(texts(tags@)),
                forall|t: Seq<char>| #[trigger]
                    texts(tags@).contains(t) <==> is_tag_of_some(self@.take(i as int), t),
            decreases self.projects.len() - i,
        {
            let project = &self.projects[i];
            let ghost start = texts(tags@);
            let mut k: usize = 0;
            while k < project.tags.len()
                invariant
                    k <= project.tags.len(),
                    strictly_sorted(texts(tags@)),
                    forall|t: Seq<char>| #[trigger]
                        texts(tags@).contains(t) <==> start.contains(t) || project@.tags.take(
                            k as int,
                        ).contains(t),
                decreases project.tags.len() - k,
            {
                insert_sorted(&mut tags, &project.tags[k]);
                proof {
                    let now = project@.tags.take(k + 1);
                    let was = project@.tags.take(k as int);
                    assert forall|t: Seq<char>| #[trigger]
                        texts(tags@).contains(t) <==> start.contains(t) || now.contains(t) by {
                        if was.contains(t) {
                            let m = choose|m: int| 0 <= m < was.len() && was[m] == t;
                            assert(now[m] == t);
                        }
                        if now.contains(t) {
                            let m = choose|m: int| 0 <= m < now.len() && now[m] == t;
                            if m < was.len() {
                                assert(was[m] == t);
                            }
                        }
                        if t == project.tags@[k as int]@ {
                            assert(now[k as int] == t);
                        }
                    }
                }
                k += 1;
            }
            proof {
                let upto = self@.take(i + 1);
                let was = self@.take(i as int);
                assert(project@.tags.take(k as int) == project@.tags);
                assert forall|t: Seq<char>| #[trigger]
                    texts(tags@).contains(t) <==> is_tag_of_some(upto, t) by {
                    if is_tag_of_some(was, t) {
                        let m = choose|m: int|
                            0 <= m < was.len() && (#[trigger] was[m]).tags.contains(t);
                        assert(upto[m].tags.contains(t));
                    }
                    if project@.tags.contains(t) {
                        assert(upto[i as int].tags.contains(t));
                    }
                    if is_tag_of_some(upto, t) {
                        let m = choose|m: int| 0 <= m < upto.len() && (#[trigger] upto[m]).tags.contains(t);
                        if m < was.len() {
                            assert(was[m].tags.contains(t));
                        }
                    }
                }
            }
            i += 1;
        }
        assert(self@.take(i as int) == self@);
        tags
    }
}

proof fn lemma_filter_all<T>(items: Seq<T>, pred: spec_fn(T) -> bool)
    ensures
        (forall|i: int| 0 <= i < items.len() ==> pred(#[trigger] items[i])) <==> items.filter(
            pred,
        ).len() == items.len(),
        (forall|i: int| 0 <= i < items.len() ==> pred(#[trigger] items[i])) ==> items.filter(pred)
            == items,
    decreases items.len(),
{
    reveal(Seq::filter);
    if items.len() > 0 {
        let front = items.drop_last();
        lemma_filter_all(front, pred);
        front.lemma_filter_len(pred);
        if forall|i: int| 0 <= i < items.len() ==> pred(#[trigger] items[i]) {
            assert forall|i: int| 0 <= i < front.len() implies pred(#[trigger] front[i]) by {
                assert(front[i] == items[i]);
            }
        }
        if items.filter(pred).len() == items.len() {
            assert forall|i: int| 0 <= i < items.len() implies pred(#[trigger] items[i]) by {
                if i < front.len() {
                    assert(front[i] == items[i]);
                }
            }
        }
    }
}

/// What is kept by flags stands in the order in which it stood, so a well-formed
/// sequence stays well-formed.
proof fn lemma_kept_keeps_order(projects: Seq<ProjectView>, keep: Seq<bool>)
    requires
        keep.len() == projects.len(),
    ensures
        kept(projects, keep).len() + count_of(keep, false) == projects.len(),
        forall|p: ProjectView| #[trigger] kept(projects, keep).contains(p) ==> projects.contains(p),
        well_formed(projects) ==> well_formed(kept(projects, keep)),
    decreases projects.len(),
{
    let left = kept(projects, keep);
    if projects.len() > 0 {
        let front = projects.drop_last();
        let rest = kept(front, keep.drop_last());
        lemma_kept_keeps_order(front, keep.drop_last());
        assert forall|p: ProjectView| #[trigger] left.contains(p) implies projects.contains(p) by {
            let i = choose|i: int| 0 <= i < left.len() && left[i] == p;
            if i < rest.len() {
                assert(rest.contains(p));
            } else {
                assert(projects[projects.len() - 1] == p);
            }
        }
        if well_formed(projects) {
            assert(well_formed(front)) by {
                assert forall|i: int, j: int| 0 <= i < j < front.len() implies (
                #[trigger] front[i]).path != (#[trigger] front[j]).path by {
                    assert(front[i] == projects[i] && front[j] == projects[j]);
                }
                assert forall|i: int| 0 <= i < front.len() implies (
                #[trigger] front[i]).tags.no_duplicates() by {
                    assert(front[i] == projects[i]);
                }
            }
            if keep.last() {
                assert forall|i: int, j: int| 0 <= i < j < left.len() implies (
                #[trigger] left[i]).path != (#[trigger] left[j]).path by {
                    if j == rest.len() {
                        assert(rest.contains(left[i]));
                    } else {
                        assert(rest[i] == left[i] && rest[j] == left[j]);
                    }
                }
                assert forall|i: int| 0 <= i < left.len() implies (
                #[trigger] left[i]).tags.no_duplicates() by {
                    if i < rest.len() {
                        assert(rest[i] == left[i]);
                    } else {
                        assert(projects[projects.len() - 1] == left[i]);
                    }
                }
            }
        }
    }
}

proof fn lemma_filter_keeps_order(projects: Seq<ProjectView>, pred: spec_fn(ProjectView) -> bool)
    ensures
        well_formed(projects) ==> well_formed(projects.filter(pred)),
{
    let keep = Seq::new(projects.len(), |i: int| pred(projects[i]));
    lemma_kept_is_filter(projects, keep, pred);
    lemma_kept_keeps_order(projects, keep);
}

} // verus!
