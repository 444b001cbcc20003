use pj::commands::rm::{remove_all, remove_selected, require_tracked, Removal};
use pj::error::CommandError;
use pj::projects::{Project, ProjectStore};
use pj::tui::SelectionResult;

fn strings(items: &[&str]) -> Vec<String> {
    items.iter().map(|s| s.to_string()).collect()
}

fn project(path: &str) -> Project {
    Project { path: path.to_string(), tags: Vec::new(), last_accessed: 1, access_count: 2 }
}

fn store_of(paths: &[&str]) -> ProjectStore {
    ProjectStore::from_projects(paths.iter().map(|p| project(p)).collect())
}

fn paths_of(store: &ProjectStore) -> Vec<String> {
    store.projects().iter().map(|p| p.path.clone()).collect()
}

#[test]
fn remove_all_reports_the_paths_that_were_tracked() {
    let mut store = store_of(&["/a", "/b", "/c", "/d"]);
    let removed = remove_all(&mut store, &strings(&["/c", "/x", "/a"]));
    assert_eq!(removed, strings(&["/c", "/a"]));
    assert_eq!(paths_of(&store), strings(&["/b", "/d"]));
}

#[test]
fn remove_all_counts_a_path_once() {
    let mut store = store_of(&["/a", "/b"]);
    let removed = remove_all(&mut store, &strings(&["/a", "/a", "/b", "/a"]));
    assert_eq!(removed, strings(&["/a", "/b"]));
    assert!(store.is_empty());
    assert_eq!(remove_all(&mut store, &strings(&["/a"])), Vec::<String>::new());
    assert_eq!(remove_all(&mut store, &[]), Vec::<String>::new());
}

#[test]
fn a_multiple_selection_is_removed() {
    let mut store = store_of(&["/a", "/b", "/c"]);
    let r = remove_selected(&mut store, SelectionResult::MultiSelected(strings(&["/b", "/c"])));
    assert_eq!(r, Removal::Removed(strings(&["/b", "/c"])));
    assert_eq!(paths_of(&store), strings(&["/a"]));
    let r = remove_selected(&mut store, SelectionResult::MultiSelected(strings(&["/b"])));
    assert_eq!(r, Removal::Removed(Vec::new()));
    assert_eq!(paths_of(&store), strings(&["/a"]));
}

#[test]
fn a_single_selection_is_removed_present_or_gone() {
    let mut store = store_of(&["/a", "/b", "/c"]);
    let r = remove_selected(&mut store, SelectionResult::Selected("/a".to_string()));
    assert_eq!(r, Removal::Removed(strings(&["/a"])));
    let r = remove_selected(&mut store, SelectionResult::MissingSelected("/c".to_string()));
    assert_eq!(r, Removal::Removed(strings(&["/c"])));
    assert_eq!(paths_of(&store), strings(&["/b"]));
}

#[test]
fn a_single_selection_that_is_not_tracked_is_reported() {
    let mut store = store_of(&["/a"]);
    let r = remove_selected(&mut store, SelectionResult::Selected("/x".to_string()));
    assert_eq!(r, Removal::NotFound("/x".to_string()));
    let r = remove_selected(&mut store, SelectionResult::MissingSelected("/y".to_string()));
    assert_eq!(r, Removal::NotFound("/y".to_string()));
    assert_eq!(paths_of(&store), strings(&["/a"]));
}

#[test]
fn a_cancelled_removal_removes_nothing() {
    let mut store = store_of(&["/a", "/b"]);
    assert_eq!(remove_selected(&mut store, SelectionResult::Cancelled), Removal::Cancelled);
    assert_eq!(paths_of(&store), strings(&["/a", "/b"]));
}

#[test]
fn a_removal_by_selection_needs_a_tracked_project() {
    let a = project("/a");
    assert_eq!(require_tracked(&[&a]), Ok(()));
    assert_eq!(require_tracked(&[]), Err(CommandError::NoProjectsTracked));
}
