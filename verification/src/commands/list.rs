//! The table of projects.

use crate::projects::{Project, ProjectView};
use crate::text::{join, joined};
use vstd::prelude::*;

verus! {

/// One line of the table of projects.
#[derive(Debug, PartialEq, Eq)]
pub struct ProjectRow {
    /// The project's path.
    pub path: String,
    /// The project's tags with a comma and a space between them.
    pub tags: String,
    /// How often the project was selected.
    pub access_count: u32,
    /// When the project was last selected, in seconds since the epoch.
    pub last_accessed: i64,
}

/// What a line of the table holds, as plain mathematical values.
pub struct RowView {
    pub path: Seq<char>,
    pub tags: Seq<char>,
    pub access_count: nat,
    pub last_accessed: int,
}

impl View for ProjectRow {
    type V = RowView;

    open spec fn view(&self) -> RowView {
        RowView {
            path: self.path@,
            tags: self.tags@,
            access_count: self.access_count as nat,
            last_accessed: self.last_accessed as int,
        }
    }
}

/// The line of the table for a project.
pub open spec fn row_for(p: ProjectView) -> RowView {
    RowView {
        path: p.path,
        tags: joined(p.tags, ", "@),
        access_count: p.access_count,
        last_accessed: p.last_accessed,
    }
}

/// The lines of the table for the projects, in their order.
pub fn project_rows(projects: &[&Project]) -> (rows: Vec<ProjectRow>)
    ensures
        rows.len() == projects.len(),
        forall|i: int| 0 <= i < rows.len() ==> (#[trigger] rows@[i])@ == row_for(projects@[i]@),
{
    let mut rows: Vec<ProjectRow> = Vec::new();
    let mut i: usize = 0;
    while i < projects.len()
        invariant
            i <= projects.len(),
            rows.len() == i,
            forall|j: int| 0 <= j < i ==> (#[trigger] rows@[j])@ == row_for(projects@[j]@),
        decreases projects.len() - i,
    {
        let project = projects[i];
        rows.push(
            ProjectRow {
                path: project.path.clone(),
                tags: join(project.tags.as_slice(), ", "),
                access_count: project.access_count,
                last_accessed: project.last_accessed,
            },
        );
        i += 1;
    }
    rows
}

} // verus!
