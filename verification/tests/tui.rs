use pj::projects::Project;
use pj::tui::{
    create_project_items, filter_projects, fuzzy_match, match_flags, matches_all,
    multi_selection, searchable, single_selection, PickerOutput, ProjectItem, SelectionResult,
};

fn strings(items: &[&str]) -> Vec<String> {
    items.iter().map(|s| s.to_string()).collect()
}

fn project(path: &str, tags: &[&str]) -> Project {
    Project { path: path.to_string(), tags: strings(tags), last_accessed: 1, access_count: 0 }
}

fn paths(projects: &[&Project]) -> Vec<String> {
    projects.iter().map(|p| p.path.clone()).collect()
}

fn item(path: &str, present: bool) -> ProjectItem {
    ProjectItem::of(&project(path, &[]), present)
}

#[test]
fn fuzzy_match_wants_the_characters_in_order() {
    assert!(fuzzy_match("src/commands/add.rs", "scadd"));
    assert!(!fuzzy_match("src/add.rs", "dsa"));
    assert!(!fuzzy_match("abc", "cb"));
    assert!(fuzzy_match("abc", "ac"));
    assert!(!fuzzy_match("", "a"));
}

#[test]
fn fuzzy_match_is_case_sensitive_for_a_pattern_with_uppercase() {
    assert!(fuzzy_match("Foo", "Foo"));
    assert!(!fuzzy_match("foo", "Foo"));
    assert!(!fuzzy_match("FOO", "Foo"));
    assert!(fuzzy_match("/home/u/MyApp", "MA"));
    assert!(!fuzzy_match("/home/u/myapp", "MA"));
}

#[test]
fn fuzzy_match_ignores_case_for_a_lowercase_pattern() {
    assert!(fuzzy_match("Foo", "foo"));
    assert!(fuzzy_match("FOO", "foo"));
    assert!(fuzzy_match("/home/u/MyApp", "ma"));
    assert!(fuzzy_match("/home/u/MyApp", "myapp"));
}

#[test]
fn the_empty_pattern_matches_everything() {
    assert!(fuzzy_match("anything", ""));
    assert!(fuzzy_match("", ""));
}

#[test]
fn searchable_is_the_path_and_the_tags() {
    assert_eq!(searchable(&project("/home/u/app", &["work", "rust"])), "/home/u/app work rust");
    assert_eq!(searchable(&project("/home/u/app", &["work"])), "/home/u/app work");
    assert_eq!(searchable(&project("/home/u/app", &[])), "/home/u/app ");
}

#[test]
fn a_term_may_match_the_path_or_a_tag() {
    let p = project("/home/u/app", &["work", "rust"]);
    assert!(matches_all(&p, &strings(&["app"])));
    assert!(matches_all(&p, &strings(&["rust"])));
    assert!(matches_all(&p, &strings(&["hwr"])));
    assert!(!matches_all(&p, &strings(&["python"])));
    assert!(matches_all(&p, &[]));
}

#[test]
fn filter_terms_compose_with_and() {
    let a = project("/home/u/alpha", &["work"]);
    let b = project("/home/u/beta", &["work"]);
    let c = project("/home/u/gamma", &["play"]);
    let all = vec![&a, &b, &c];
    assert_eq!(paths(&filter_projects(&all, &strings(&["work"]))), strings(&["/home/u/alpha", "/home/u/beta"]));
    assert_eq!(paths(&filter_projects(&all, &strings(&["beta"]))), strings(&["/home/u/beta"]));
    assert_eq!(
        paths(&filter_projects(&all, &strings(&["work", "beta"]))),
        strings(&["/home/u/beta"])
    );
    assert_eq!(
        paths(&filter_projects(&all, &strings(&["beta", "work"]))),
        strings(&["/home/u/beta"])
    );
    assert_eq!(paths(&filter_projects(&all, &strings(&["play", "beta"]))), Vec::<String>::new());
    assert!(matches_all(&a, &strings(&["work"])));
    assert!(!matches_all(&a, &strings(&["beta"])));
    assert!(!matches_all(&a, &strings(&["work", "beta"])));
}

#[test]
fn without_terms_every_project_passes() {
    let a = project("/a", &[]);
    let b = project("/b", &["x"]);
    let all = vec![&a, &b];
    assert_eq!(paths(&filter_projects(&all, &[])), strings(&["/a", "/b"]));
    assert_eq!(match_flags(&all, &[]), vec![true, true]);
    assert_eq!(filter_projects(&[], &strings(&["a"])).len(), 0);
}

#[test]
fn match_flags_says_which_projects_pass() {
    let a = project("/home/u/alpha", &["work"]);
    let b = project("/home/u/beta", &["work"]);
    let c = project("/home/u/gamma", &["play"]);
    let all = vec![&a, &b, &c];
    assert_eq!(match_flags(&all, &strings(&["work", "al"])), vec![true, false, false]);
    assert_eq!(match_flags(&all, &strings(&["a"])), vec![true, true, true]);
    assert_eq!(match_flags(&all, &strings(&["A"])), vec![false, false, false]);
}

#[test]
fn an_item_shows_path_tags_and_the_missing_mark() {
    let with_tags = ProjectItem::of(&project("/home/u/app", &["work", "rust"]), true);
    assert_eq!(with_tags.path, "/home/u/app");
    assert_eq!(with_tags.display, "/home/u/app [work, rust]");
    assert_eq!(with_tags.searchable, "/home/u/app work rust");
    assert!(with_tags.present);

    let missing = ProjectItem::of(&project("/home/u/app", &["work"]), false);
    assert_eq!(missing.display, "/home/u/app [work] [MISSING]");
    assert_eq!(missing.searchable, "/home/u/app work");
    assert!(!missing.present);

    let bare = ProjectItem::of(&project("/home/u/app", &[]), true);
    assert_eq!(bare.display, "/home/u/app");
    assert_eq!(bare.searchable, "/home/u/app ");

    let bare_missing = ProjectItem::of(&project("/home/u/app", &[]), false);
    assert_eq!(bare_missing.display, "/home/u/app [MISSING]");
}

#[test]
fn create_project_items_marks_what_is_gone() {
    let here = project("/", &["root"]);
    let gone = project("/no/such/directory/as/this-0192837465", &[]);
    let items = create_project_items(&[&here, &gone]);
    assert_eq!(items.len(), 2);
    assert_eq!(items[0], ProjectItem::of(&here, true));
    assert_eq!(items[1], ProjectItem::of(&gone, false));
    assert_eq!(items[0].display, "/ [root]");
    assert_eq!(items[1].display, "/no/such/directory/as/this-0192837465 [MISSING]");
    assert!(create_project_items(&[]).is_empty());
}

#[test]
fn single_selection_takes_the_first_line() {
    let picked = PickerOutput::Accepted(vec![item("/a", true), item("/b", false)]);
    assert_eq!(single_selection(&picked), SelectionResult::Selected("/a".to_string()));
    let gone = PickerOutput::Accepted(vec![item("/b", false), item("/a", true)]);
    assert_eq!(single_selection(&gone), SelectionResult::MissingSelected("/b".to_string()));
}

#[test]
fn single_selection_without_a_line_is_a_cancellation() {
    assert_eq!(single_selection(&PickerOutput::Accepted(Vec::new())), SelectionResult::Cancelled);
    assert_eq!(single_selection(&PickerOutput::Aborted), SelectionResult::Cancelled);
    assert_eq!(single_selection(&PickerOutput::Nothing), SelectionResult::Cancelled);
}

#[test]
fn multi_selection_takes_every_line() {
    let picked = PickerOutput::Accepted(vec![item("/a", true), item("/b", false), item("/c", true)]);
    assert_eq!(
        multi_selection(&picked),
        SelectionResult::MultiSelected(strings(&["/a", "/b", "/c"]))
    );
    let one = PickerOutput::Accepted(vec![item("/b", false)]);
    assert_eq!(multi_selection(&one), SelectionResult::MultiSelected(strings(&["/b"])));
}

#[test]
fn multi_selection_without_a_line_is_a_cancellation() {
    assert_eq!(multi_selection(&PickerOutput::Accepted(Vec::new())), SelectionResult::Cancelled);
    assert_eq!(multi_selection(&PickerOutput::Aborted), SelectionResult::Cancelled);
    assert_eq!(multi_selection(&PickerOutput::Nothing), SelectionResult::Cancelled);
}
