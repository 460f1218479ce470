//! The on-disk notes file. It is meant to be committed to a repository and
//! reviewed in pull requests, so it stays small, readable and stable in key
//! order. Reading and writing it as JSON happens outside this library.
use vstd::prelude::*;
use crate::name_map::NameMap;

verus! {

/// The notes file: format version, project notes, groups and table notes.
#[derive(Debug)]
pub struct AnnotationFile {
    pub format_version: u32,
    pub project: Option<ProjectAnnotation>,
    pub groups: Vec<GroupAnnotation>,
    /// Keyed by `schema.table` (or bare `table` on schema-less engines).
    pub tables: NameMap<TableAnnotation>,
}

/// Notes on the project as a whole.
#[derive(Debug)]
pub struct ProjectAnnotation {
    pub name: Option<String>,
    /// Markdown. Becomes the documentation landing page.
    pub note: Option<String>,
}

/// A group of tables.
#[derive(Debug)]
pub struct GroupAnnotation {
    /// Stable slug, referenced by `TableAnnotation::group`.
    pub id: String,
    pub name: String,
    /// 0..=359. Lightness and chroma are theme-controlled, so any hue is
    /// legible on both light and dark grounds by construction.
    pub hue: u16,
    pub note: Option<String>,
}

/// Notes on one table.
#[derive(Debug)]
pub struct TableAnnotation {
    /// References `GroupAnnotation::id`.
    pub group: Option<String>,
    pub note: Option<String>,
    /// Keyed by bare column name.
    pub columns: NameMap<ColumnAnnotation>,
}

impl Default for TableAnnotation {
    fn default() -> (t: Self)
        ensures
            t.group is None,
            t.note is None,
            t.columns.entries_view().len() == 0,
    {
        TableAnnotation { group: None, note: None, columns: NameMap::new() }
    }
}

/// A note on one column.
#[derive(Debug)]
pub struct ColumnAnnotation {
    pub note: String,
}

} // verus!
