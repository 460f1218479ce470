//! The schema metadata that the documentation is built from.
use vstd::prelude::*;
use crate::name_map::NameMap;
use crate::text::{chars_of, push_chars, push_str, string_of};

verus! {

/// Database engines.
#[derive(Debug, Clone, Copy, PartialEq, Eq, Structural)]
pub enum DatabaseType {
    Postgres,
    Mysql,
    Sqlite,
    SqlServer,
    Oracle,
}

/// One column as the engine reports it.
#[derive(Debug, Clone)]
pub struct ColumnInfo {
    pub name: String,
    pub data_type: String,
    pub is_nullable: bool,
    pub is_primary_key: bool,
    pub column_default: Option<String>,
    pub extra: Option<String>,
    pub comment: Option<String>,
    pub character_maximum_length: Option<i64>,
    pub numeric_precision: Option<i64>,
    pub numeric_scale: Option<i64>,
    pub enum_values: Option<Vec<String>>,
}

impl Default for ColumnInfo {
    fn default() -> (c: Self)
        ensures
            c.name@ == Seq::<char>::empty(),
            c.data_type@ == Seq::<char>::empty(),
            !c.is_nullable,
            !c.is_primary_key,
            c.column_default is None,
            c.extra is None,
            c.comment is None,
            c.character_maximum_length is None,
            c.numeric_precision is None,
            c.numeric_scale is None,
            c.enum_values is None,
    {
        ColumnInfo {
            name: String::new(),
            data_type: String::new(),
            is_nullable: false,
            is_primary_key: false,
            column_default: None,
            extra: None,
            comment: None,
            character_maximum_length: None,
            numeric_precision: None,
            numeric_scale: None,
            enum_values: None,
        }
    }
}

/// One index as the engine reports it.
#[derive(Debug, Clone)]
pub struct IndexInfo {
    pub name: String,
    pub columns: Vec<String>,
    pub is_unique: bool,
    pub is_primary: bool,
    pub filter: Option<String>,
    pub index_type: Option<String>,
    pub included_columns: Option<Vec<String>>,
    pub comment: Option<String>,
}

/// One foreign key as the engine reports it.
#[derive(Debug, Clone)]
pub struct ForeignKeyInfo {
    pub name: String,
    pub column: String,
    pub referenced_schema: Option<String>,
    pub referenced_table: String,
    pub referenced_column: String,
}

/// One table as the engine lists it.
#[derive(Debug, Clone)]
pub struct TableInfo {
    pub name: String,
    pub table_type: String,
    pub comment: Option<String>,
}

/// What kind of relation a documented table is.
#[derive(Debug, Clone, Copy, PartialEq, Eq, Structural)]
pub enum TableKind {
    Table,
    View,
    MaterializedView,
}

/// Where a note came from.
#[derive(Debug, Clone, Copy, PartialEq, Eq, Structural)]
pub enum NoteSource {
    /// No note (`None` in the serialized form).
    Absent,
    Database,
    Local,
}

/// A note attached to a column.
#[derive(Debug)]
pub struct ColumnNote {
    pub note: String,
    pub source: NoteSource,
    pub shadowed: Option<String>,
}

/// A documented table.
#[derive(Debug)]
pub struct DocTable {
    pub schema: Option<String>,
    pub name: String,
    pub kind: TableKind,
    pub columns: Vec<ColumnInfo>,
    pub indexes: Vec<IndexInfo>,
    pub foreign_keys: Vec<ForeignKeyInfo>,
    pub group_id: Option<String>,
    pub note: Option<String>,
    pub note_source: NoteSource,
    pub shadowed_note: Option<String>,
    /// Keyed by bare column name.
    pub column_notes: NameMap<ColumnNote>,
    pub estimated_rows: Option<i64>,
    pub view_definition: Option<String>,
}

/// `schema.name`, or bare `name` when there is no schema.
pub open spec fn qualified_name_of(schema: Option<String>, name: Seq<char>) -> Seq<char> {
    match schema {
        Some(s) => if s@.len() > 0 { s@ + "."@ + name } else { name },
        None => name,
    }
}

impl DocTable {
    /// `schema.name`, or bare `name` when there is no schema.
    pub open spec fn spec_qualified_name(&self) -> Seq<char> {
        qualified_name_of(self.schema, self.name@)
    }

    /// `schema.name`, or bare `name` when there is no schema.
    pub fn qualified_name(&self) -> (r: String)
        ensures
            r@ == self.spec_qualified_name(),
    {
        let mut out: Vec<char> = Vec::new();
        match &self.schema {
            Some(s) => {
                if !s.as_str().is_empty() {
                    push_str(&mut out, s.as_str());
                    push_str(&mut out, ".");
                }
            },
            None => {},
        }
        push_str(&mut out, self.name.as_str());
        string_of(&out)
    }
}

/// A named enum type.
#[derive(Debug, Clone)]
pub struct DocEnum {
    pub schema: Option<String>,
    pub name: String,
    pub values: Vec<String>,
    pub note: Option<String>,
    pub synthesized: bool,
}

/// Something the documentation could not fully express.
#[derive(Debug, Clone)]
pub enum SnapshotWarning {
    CommentsUnsupported { engine: String },
    NoForeignKeyMetadata { engine: String },
    TableSkipped { table: String, reason: String },
    DbmlOmitted { table: String, item: String, reason: String },
}

/// What a warning says, as text.
pub enum WarningView {
    CommentsUnsupported { engine: Seq<char> },
    NoForeignKeyMetadata { engine: Seq<char> },
    TableSkipped { table: Seq<char>, reason: Seq<char> },
    DbmlOmitted { table: Seq<char>, item: Seq<char>, reason: Seq<char> },
}

impl View for SnapshotWarning {
    type V = WarningView;

    open spec fn view(&self) -> WarningView {
        match self {
            SnapshotWarning::CommentsUnsupported { engine } => WarningView::CommentsUnsupported {
                engine: engine@,
            },
            SnapshotWarning::NoForeignKeyMetadata { engine } => WarningView::NoForeignKeyMetadata {
                engine: engine@,
            },
            SnapshotWarning::TableSkipped { table, reason } => WarningView::TableSkipped {
                table: table@,
                reason: reason@,
            },
            SnapshotWarning::DbmlOmitted { table, item, reason } => WarningView::DbmlOmitted {
                table: table@,
                item: item@,
                reason: reason@,
            },
        }
    }
}

/// What a sequence of warnings says.
pub open spec fn warning_views(s: Seq<SnapshotWarning>) -> Seq<WarningView> {
    s.map_values(|w: SnapshotWarning| w@)
}


/// What a snapshot says about the project.
#[derive(Debug)]
pub struct ProjectMeta {
    pub name: String,
    /// The engine's name.
    pub database_type: String,
    pub database: Option<String>,
    pub schemas: Vec<String>,
    pub generated_at: String,
    pub note: Option<String>,
}

/// A documentation snapshot: the project, its tables in name order, the
/// enums synthesized from them, and what could not be documented.
#[derive(Debug)]
pub struct SchemaSnapshot {
    pub format_version: u32,
    pub project: ProjectMeta,
    pub tables: Vec<DocTable>,
    pub enums: Vec<DocEnum>,
    pub warnings: Vec<SnapshotWarning>,
}

/// The engine's name, as snapshots report it.
pub open spec fn engine_name_spec(db: DatabaseType) -> Seq<char> {
    match db {
        DatabaseType::Postgres => "Postgres"@,
        DatabaseType::Mysql => "Mysql"@,
        DatabaseType::Sqlite => "Sqlite"@,
        DatabaseType::SqlServer => "SqlServer"@,
        DatabaseType::Oracle => "Oracle"@,
    }
}

/// The engine's name, as snapshots report it.
pub fn engine_name(db: DatabaseType) -> (r: String)
    ensures
        r@ == engine_name_spec(db),
{
    let name = match db {
        DatabaseType::Postgres => "Postgres",
        DatabaseType::Mysql => "Mysql",
        DatabaseType::Sqlite => "Sqlite",
        DatabaseType::SqlServer => "SqlServer",
        DatabaseType::Oracle => "Oracle",
    };
    string_of(&chars_of(name))
}

} // verus!
