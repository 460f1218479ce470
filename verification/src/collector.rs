//! The decisions of a documentation snapshot collection: which tables to
//! document, how each engine-reported table becomes a documented table,
//! what is recorded as a warning, and the order of the result.
use vstd::prelude::*;
use crate::dbml::{nonblank, opt_str_view, opt_string_view};
use crate::model::{
    ColumnInfo, DocEnum, DocTable, ForeignKeyInfo, IndexInfo, NoteSource, ProjectMeta, SchemaSnapshot,
    SnapshotWarning, TableInfo, TableKind, WarningView, warning_views,
};
use crate::name_map::NameMap;
use crate::text::{
    ascii_upper, ascii_upper_exec, chars_eq, chars_of, is_blank_exec, push_str, replace_all,
    replace_all_exec, string_of, string_views, trim, trim_chars,
};

verus! {

/// What to document.
#[derive(Debug, Clone)]
pub struct CollectOptions {
    pub database: String,
    pub schemas: Vec<String>,
    /// Empty means every table. Entries may be bare (`orders`) or
    /// qualified (`analytics.daily_sales`).
    pub tables: Vec<String>,
    pub project_name: String,
}

/// Progress of a collection.
#[derive(Debug, Clone)]
pub struct CollectProgress {
    pub completed: usize,
    pub total: usize,
    pub current: String,
}

/// Whether the filter `tables` selects `table` in `schema`: an empty filter
/// selects everything; otherwise an entry must equal the bare name or
/// `schema.table`.
pub open spec fn includes_spec(tables: Seq<Seq<char>>, schema: Seq<char>, table: Seq<char>) -> bool {
    tables.len() == 0 || exists|i: int|
        0 <= i < tables.len() && (#[trigger] tables[i] == table || tables[i] == schema + "."@ + table)
}

impl CollectOptions {
    /// Whether the table filter selects `table` in `schema`.
    pub fn includes_table(&self, schema: &str, table: &str) -> (r: bool)
        ensures
            r == includes_spec(string_views(self.tables@), schema@, table@),
    {
        let ghost wanted = string_views(self.tables@);
        if self.tables.len() == 0 {
            return true;
        }
        let bare = chars_of(table);
        let mut qualified = chars_of(schema);
        push_str(&mut qualified, ".");
        let tv = chars_of(table);
        let mut k: usize = 0;
        while k < tv.len()
            invariant
                k <= tv@.len(),
                tv@ == table@,
                qualified@ == schema@ + "."@ + table@.take(k as int),
            decreases tv@.len() - k,
        {
            qualified.push(tv[k]);
            assert(table@.take(k + 1) =~= table@.take(k as int).push(table@[k as int]));
            k = k + 1;
        }
        assert(table@.take(k as int) =~= table@);
        let n = self.tables.len();
        for i in 0..n
            invariant
                n == self.tables@.len(),
                wanted == string_views(self.tables@),
                bare@ == table@,
                qualified@ == schema@ + "."@ + table@,
                forall|j: int| 0 <= j < i ==> #[trigger] wanted[j] != table@ && wanted[j] != schema@ + "."@ + table@,
        {
            let w = chars_of(self.tables[i].as_str());
            if chars_eq(&w, &bare) || chars_eq(&w, &qualified) {
                assert(wanted[i as int] == w@);
                return true;
            }
        }
        false
    }

    /// The schemas to walk: the requested ones, or when none were requested
    /// the ones the engine listed; a single empty schema when that leaves
    /// nothing (engines without schemas).
    pub fn effective_schemas(&self, listed: Vec<String>) -> (r: Vec<String>)
        ensures
            string_views(r@) == effective_schemas_spec(string_views(self.schemas@), string_views(listed@)),
    {
        let schemas = if self.schemas.len() == 0 {
            listed
        } else {
            clone_strings(&self.schemas)
        };
        if schemas.len() == 0 {
            let mut r: Vec<String> = Vec::new();
            r.push(String::new());
            assert(string_views(r@) =~= seq![Seq::<char>::empty()]);
            r
        } else {
            schemas
        }
    }

    /// Keeps, in order, the listed tables of `schema` that the filter selects.
    pub fn select_tables(&self, schema: &str, tables: Vec<TableInfo>) -> (r: Vec<TableInfo>)
        ensures
            r@ == selected(string_views(self.tables@), schema@, tables@),
    {
        let mut r: Vec<TableInfo> = Vec::new();
        let mut rest = tables;
        let ghost orig = rest@;
        let total = rest.len();
        let mut k: usize = 0;
        while rest.len() > 0
            invariant
                k + rest@.len() == orig.len(),
                orig.len() == total,
                rest@ == orig.skip(k as int),
                r@ == selected(string_views(self.tables@), schema@, orig.take(k as int)),
            decreases rest@.len(),
        {
            let info = rest.remove(0);
            assert(orig.take(k + 1).drop_last() =~= orig.take(k as int));
            assert(info == orig[k as int]);
            if self.includes_table(schema, info.name.as_str()) {
                r.push(info);
            }
            assert(rest@ =~= orig.skip(k + 1));
            k = k + 1;
        }
        assert(orig.take(k as int) =~= orig);
        r
    }
}

/// The schemas to walk.
pub open spec fn effective_schemas_spec(requested: Seq<Seq<char>>, listed: Seq<Seq<char>>) -> Seq<Seq<char>> {
    let schemas = if requested.len() == 0 { listed } else { requested };
    if schemas.len() == 0 {
        seq![Seq::empty()]
    } else {
        schemas
    }
}

/// The tables that the filter selects, in order.
pub open spec fn selected(filter: Seq<Seq<char>>, schema: Seq<char>, tables: Seq<TableInfo>) -> Seq<TableInfo>
    decreases tables.len(),
{
    if tables.len() == 0 {
        Seq::empty()
    } else {
        let rest = selected(filter, schema, tables.drop_last());
        if includes_spec(filter, schema, tables.last().name@) {
            rest.push(tables.last())
        } else {
            rest
        }
    }
}

/// Copies of the given strings.
pub fn clone_strings(v: &Vec<String>) -> (r: Vec<String>)
    ensures
        string_views(r@) == string_views(v@),
{
    let mut r: Vec<String> = Vec::new();
    let n = v.len();
    for i in 0..n
        invariant
            n == v@.len(),
            string_views(r@) == string_views(v@.take(i as int)),
    {
        r.push(v[i].clone());
        assert(string_views(v@.take(i + 1)) =~= string_views(v@.take(i as int)).push(v@[i as int]@));
        assert(string_views(r@) =~= string_views(v@.take(i as int)).push(v@[i as int]@));
    }
    assert(v@.take(n as int) =~= v@);
    r
}

/// The engine-reported table type, trimmed, upper-cased and with `_` read
/// as a space.
pub open spec fn normalized_table_type(table_type: Seq<char>) -> Seq<char> {
    replace_all(ascii_upper(trim(table_type)), "_"@, " "@)
}

/// The kind of table for an engine-reported table type.
pub open spec fn table_kind_spec(table_type: Seq<char>) -> TableKind {
    let normalized = normalized_table_type(table_type);
    if normalized == "VIEW"@ {
        TableKind::View
    } else if normalized == "MATERIALIZED VIEW"@ {
        TableKind::MaterializedView
    } else {
        TableKind::Table
    }
}

/// The kind of table for an engine-reported table type.
pub fn table_kind_from(table_type: &str) -> (r: TableKind)
    ensures
        r == table_kind_spec(table_type@),
{
    let v = chars_of(table_type);
    let t = trim_chars(&v);
    let upper = ascii_upper_exec(&t);
    let underscore = chars_of("_");
    let space = chars_of(" ");
    proof {
        reveal_strlit("_");
    }
    let normalized = replace_all_exec(&upper, &underscore, &space);
    let view = chars_of("VIEW");
    let materialized = chars_of("MATERIALIZED VIEW");
    if chars_eq(&normalized, &view) {
        TableKind::View
    } else if chars_eq(&normalized, &materialized) {
        TableKind::MaterializedView
    } else {
        TableKind::Table
    }
}

/// The view of a documented enum: schema, name, values, note, synthesized.
pub open spec fn enum_view(e: DocEnum) -> (Option<Seq<char>>, Seq<char>, Seq<Seq<char>>, Option<Seq<char>>, bool) {
    (opt_string_view(e.schema), e.name@, string_views(e.values@), opt_string_view(e.note), e.synthesized)
}

/// The enum synthesized from an inline enum column: named
/// `table_column`, holding the column's values.
pub open spec fn synthesized_enum(schema: Option<Seq<char>>, table: Seq<char>, column: ColumnInfo) -> Option<
    (Option<Seq<char>>, Seq<char>, Seq<Seq<char>>, Option<Seq<char>>, bool),
> {
    match column.enum_values {
        Some(values) => if values@.len() > 0 {
            Some((schema, table + "_"@ + column.name@, string_views(values@), None, true))
        } else {
            None
        },
        None => None,
    }
}

/// MySQL reports `ENUM('a','b')` inline rather than as a named type.
/// DBML needs a named enum, so synthesize one per table and column.
pub fn synthesize_enum(schema: Option<&str>, table: &str, column: &ColumnInfo) -> (r: Option<DocEnum>)
    ensures
        match r {
            Some(e) => synthesized_enum(opt_str_view(schema), table@, *column) == Some(enum_view(e)),
            None => synthesized_enum(opt_str_view(schema), table@, *column) is None,
        },
{
    match &column.enum_values {
        Some(values) => {
            if values.len() == 0 {
                return None;
            }
            let mut name = chars_of(table);
            push_str(&mut name, "_");
            push_str(&mut name, column.name.as_str());
            let schema_copy = match schema {
                Some(s) => Some(string_of(&chars_of(s))),
                None => None,
            };
            Some(
                DocEnum {
                    schema: schema_copy,
                    name: string_of(&name),
                    values: clone_strings(values),
                    note: None,
                    synthesized: true,
                },
            )
        },
        None => None,
    }
}

/// The warnings for what the engine cannot report: comments, then
/// foreign-key metadata.
pub open spec fn capability_warnings_spec(engine: Seq<char>, comments: bool, foreign_keys: bool) -> Seq<WarningView> {
    let w1: Seq<WarningView> = if comments {
        Seq::empty()
    } else {
        seq![WarningView::CommentsUnsupported { engine }]
    };
    if foreign_keys {
        w1
    } else {
        w1.push(WarningView::NoForeignKeyMetadata { engine })
    }
}

/// The warnings for what the engine cannot report. They depend on the
/// engine's capabilities, not on what the schema happens to contain.
pub fn capability_warnings(engine: &str, comments_supported: bool, foreign_keys_supported: bool) -> (r:
    Vec<SnapshotWarning>)
    ensures
        warning_views(r@) == capability_warnings_spec(engine@, comments_supported, foreign_keys_supported),
{
    let mut r: Vec<SnapshotWarning> = Vec::new();
    if !comments_supported {
        r.push(SnapshotWarning::CommentsUnsupported { engine: string_of(&chars_of(engine)) });
    }
    if !foreign_keys_supported {
        r.push(SnapshotWarning::NoForeignKeyMetadata { engine: string_of(&chars_of(engine)) });
    }
    assert(warning_views(r@) =~= capability_warnings_spec(engine@, comments_supported, foreign_keys_supported));
    r
}

/// `schema.name`.
pub fn table_label(schema: &str, name: &str) -> (r: String)
    ensures
        r@ == schema@ + "."@ + name@,
{
    let mut v = chars_of(schema);
    push_str(&mut v, ".");
    push_str(&mut v, name);
    string_of(&v)
}

/// A schema whose tables could not be listed is skipped as `schema.*`.
pub fn schema_unavailable(schema: &str, error: String) -> (r: SnapshotWarning)
    ensures
        r@ == (WarningView::TableSkipped { table: schema@ + "."@ + "*"@, reason: error@ }),
{
    SnapshotWarning::TableSkipped { table: table_label(schema, "*"), reason: error }
}

/// A table whose columns could not be read is skipped.
pub fn columns_unavailable(schema: &str, name: &str, error: String) -> (r: SnapshotWarning)
    ensures
        r@ == (WarningView::TableSkipped { table: schema@ + "."@ + name@, reason: error@ }),
{
    SnapshotWarning::TableSkipped { table: table_label(schema, name), reason: error }
}

/// The reason a table is skipped after cancellation: `collection cancelled`
/// when no slot could be had, `cancelled` when the flag was raised.
pub open spec fn cancellation_reason(no_slot: bool) -> Seq<char> {
    if no_slot {
        "collection cancelled"@
    } else {
        "cancelled"@
    }
}

/// A table skipped because the collection was cancelled.
pub fn cancellation_warning(name: &str, no_slot: bool) -> (r: SnapshotWarning)
    ensures
        r@ == (WarningView::TableSkipped { table: name@, reason: cancellation_reason(no_slot) }),
{
    let reason = if no_slot {
        chars_of("collection cancelled")
    } else {
        chars_of("cancelled")
    };
    SnapshotWarning::TableSkipped { table: string_of(&chars_of(name)), reason: string_of(&reason) }
}

/// The warning for foreign keys that could not be read: a real query
/// failure must not look like a table without foreign keys.
pub open spec fn foreign_key_warnings(schema: Seq<char>, name: Seq<char>, foreign_keys: Result<Vec<ForeignKeyInfo>, String>) -> Seq<WarningView> {
    match foreign_keys {
        Ok(_) => Seq::empty(),
        Err(e) => seq![
            WarningView::TableSkipped {
                table: schema + "."@ + name,
                reason: "foreign keys unavailable: "@ + e@,
            },
        ],
    }
}

/// The fetched items, or none when fetching failed.
pub open spec fn or_empty<T>(r: Result<Vec<T>, String>) -> Seq<T> {
    match r {
        Ok(v) => v@,
        Err(_) => Seq::empty(),
    }
}

/// A documented table built from what the engine reported: the schema
/// only when it is not empty, the comment as the note when it is not blank,
/// indexes and foreign keys degraded to none when they could not be read
/// (the foreign-key failure recorded as a warning).
pub fn assemble_table(
    schema_name: &str,
    info: TableInfo,
    columns: Vec<ColumnInfo>,
    indexes: Result<Vec<IndexInfo>, String>,
    foreign_keys: Result<Vec<ForeignKeyInfo>, String>,
) -> (r: (DocTable, Vec<SnapshotWarning>))
    ensures
        opt_string_view(r.0.schema) == (if schema_name@.len() > 0 { Some(schema_name@) } else { None::<Seq<char>> }),
        r.0.name@ == info.name@,
        r.0.kind == table_kind_spec(info.table_type@),
        r.0.columns@ == columns@,
        r.0.indexes@ == or_empty(indexes),
        r.0.foreign_keys@ == or_empty(foreign_keys),
        r.0.group_id is None,
        opt_string_view(r.0.note) == nonblank(info.comment),
        r.0.note_source == (if nonblank(info.comment) is Some { NoteSource::Database } else { NoteSource::Absent }),
        r.0.shadowed_note is None,
        forall|q: Seq<char>| !#[trigger] r.0.column_notes.has_key(q),
        r.0.estimated_rows is None,
        r.0.view_definition is None,
        warning_views(r.1@) == foreign_key_warnings(schema_name@, info.name@, foreign_keys),
{
    let mut table_warnings: Vec<SnapshotWarning> = Vec::new();
    let fks = match foreign_keys {
        Ok(keys) => keys,
        Err(error) => {
            let mut reason = chars_of("foreign keys unavailable: ");
            push_str(&mut reason, error.as_str());
            table_warnings.push(
                SnapshotWarning::TableSkipped {
                    table: table_label(schema_name, info.name.as_str()),
                    reason: string_of(&reason),
                },
            );
            Vec::new()
        },
    };
    assert(warning_views(table_warnings@) =~= foreign_key_warnings(schema_name@, info.name@, foreign_keys));
    let idx = match indexes {
        Ok(v) => v,
        Err(_) => Vec::new(),
    };
    let schema = if schema_name.is_empty() {
        None
    } else {
        Some(string_of(&chars_of(schema_name)))
    };
    let (note, note_source) = match &info.comment {
        Some(c) => {
            let cv = chars_of(c.as_str());
            if is_blank_exec(&cv) {
                (None, NoteSource::Absent)
            } else {
                (Some(c.clone()), NoteSource::Database)
            }
        },
        None => (None, NoteSource::Absent),
    };
    let kind = table_kind_from(info.table_type.as_str());
    let table = DocTable {
        schema,
        name: info.name,
        kind,
        columns,
        indexes: idx,
        foreign_keys: fks,
        group_id: None,
        note,
        note_source,
        shadowed_note: None,
        column_notes: NameMap::new(),
        estimated_rows: None,
        view_definition: None,
    };
    (table, table_warnings)
}

/// What one table's collection produced: the table with its warnings, or
/// the warning that it was skipped.
pub type TableOutcome = Result<(DocTable, Vec<SnapshotWarning>), SnapshotWarning>;

/// The collected tables, in outcome order.
pub open spec fn ok_tables(outcomes: Seq<TableOutcome>) -> Seq<DocTable>
    decreases outcomes.len(),
{
    if outcomes.len() == 0 {
        Seq::empty()
    } else {
        match outcomes.last() {
            Ok((t, _)) => ok_tables(outcomes.drop_last()).push(t),
            Err(_) => ok_tables(outcomes.drop_last()),
        }
    }
}

/// The warnings of all outcomes, in outcome order.
pub open spec fn outcome_warnings(outcomes: Seq<TableOutcome>) -> Seq<SnapshotWarning>
    decreases outcomes.len(),
{
    if outcomes.len() == 0 {
        Seq::empty()
    } else {
        outcome_warnings(outcomes.drop_last()) + match outcomes.last() {
            Ok((_, ws)) => ws@,
            Err(w) => seq![w],
        }
    }
}

/// Splits the outcomes into the collected tables and the warnings, which
/// are appended to `warnings`. A per-table failure does not abort the run.
pub fn merge_outcomes(outcomes: Vec<TableOutcome>, warnings: &mut Vec<SnapshotWarning>) -> (r: Vec<DocTable>)
    ensures
        r@ == ok_tables(outcomes@),
        final(warnings)@ == old(warnings)@ + outcome_warnings(outcomes@),
{
    let mut tables: Vec<DocTable> = Vec::new();
    let mut rest = outcomes;
    let ghost orig = rest@;
    let ghost start = warnings@;
    let total = rest.len();
    let mut k: usize = 0;
    while rest.len() > 0
        invariant
            k + rest@.len() == orig.len(),
            orig.len() == total,
            rest@ == orig.skip(k as int),
            tables@ == ok_tables(orig.take(k as int)),
            warnings@ == start + outcome_warnings(orig.take(k as int)),
        decreases rest@.len(),
    {
        let outcome = rest.remove(0);
        assert(orig.take(k + 1).drop_last() =~= orig.take(k as int));
        assert(outcome == orig[k as int]);
        match outcome {
            Ok((table, mut table_warnings)) => {
                tables.push(table);
                warnings.append(&mut table_warnings);
            },
            Err(warning) => {
                warnings.push(warning);
            },
        }
        assert(warnings@ =~= start + outcome_warnings(orig.take(k + 1)));
        assert(rest@ =~= orig.skip(k + 1));
        k = k + 1;
    }
    assert(orig.take(k as int) =~= orig);
    tables
}

/// Strict lexicographic order of character sequences (`String`'s order:
/// UTF-8 bytes compare as code points do).
pub open spec fn seq_lt(a: Seq<char>, b: Seq<char>) -> bool
    decreases a.len(),
{
    if a.len() == 0 {
        b.len() > 0
    } else if b.len() == 0 {
        false
    } else if a[0] != b[0] {
        a[0] < b[0]
    } else {
        seq_lt(a.drop_first(), b.drop_first())
    }
}

fn seq_lt_exec(a: &Vec<char>, b: &Vec<char>) -> (r: bool)
    ensures
        r == seq_lt(a@, b@),
{
    let n = a.len();
    let m = b.len();
    let mut i: usize = 0;
    assert(a@.skip(0) =~= a@);
    assert(b@.skip(0) =~= b@);
    while i < n && i < m && a[i] == b[i]
        invariant
            n == a@.len(),
            m == b@.len(),
            i <= n,
            i <= m,
            seq_lt(a@, b@) == seq_lt(a@.skip(i as int), b@.skip(i as int)),
        decreases n - i,
    {
        assert(a@.skip(i as int).drop_first() =~= a@.skip(i + 1));
        assert(b@.skip(i as int).drop_first() =~= b@.skip(i + 1));
        i = i + 1;
    }
    if i == n {
        i < m
    } else if i == m {
        false
    } else {
        a[i] < b[i]
    }
}

/// The key tables are ordered by.
pub open spec fn table_key_of(t: DocTable) -> Seq<char> {
    t.spec_qualified_name()
}

/// `s` with `x` inserted after every element whose key is not greater
/// than `x`'s: one step of a stable insertion sort.
pub open spec fn insert_sorted(s: Seq<DocTable>, x: DocTable) -> Seq<DocTable>
    decreases s.len(),
{
    if s.len() == 0 {
        seq![x]
    } else if seq_lt(table_key_of(x), table_key_of(s.last())) {
        insert_sorted(s.drop_last(), x).push(s.last())
    } else {
        s.push(x)
    }
}

/// The tables stably sorted by qualified name (`sort_by` on the names).
pub open spec fn sorted_by_name(s: Seq<DocTable>) -> Seq<DocTable>
    decreases s.len(),
{
    if s.len() == 0 {
        Seq::empty()
    } else {
        insert_sorted(sorted_by_name(s.drop_last()), s.last())
    }
}

proof fn lemma_insert_at(s: Seq<DocTable>, x: DocTable, p: int)
    requires
        0 <= p <= s.len(),
        forall|j: int| p <= j < s.len() ==> seq_lt(table_key_of(x), #[trigger] table_key_of(s[j])),
        p == 0 || !seq_lt(table_key_of(x), table_key_of(s[p - 1])),
    ensures
        insert_sorted(s, x) == s.take(p).push(x) + s.skip(p),
    decreases s.len(),
{
    if s.len() == 0 {
        assert(s.take(p).push(x) + s.skip(p) =~= seq![x]);
    } else if p == s.len() {
        assert(s.take(p) =~= s);
        assert(s.take(p).push(x) + s.skip(p) =~= s.push(x));
    } else {
        assert(seq_lt(table_key_of(x), table_key_of(s[s.len() - 1])));
        let t = s.drop_last();
        assert forall|j: int| p <= j < t.len() implies seq_lt(table_key_of(x), #[trigger] table_key_of(t[j])) by {
            assert(t[j] == s[j]);
        }
        if p > 0 {
            assert(t[p - 1] == s[p - 1]);
        }
        lemma_insert_at(t, x, p);
        assert(t.take(p) =~= s.take(p));
        assert((t.take(p).push(x) + t.skip(p)).push(s.last()) =~= s.take(p).push(x) + s.skip(p));
    }
}

/// Sorts the tables stably by qualified name.
pub fn sort_tables(tables: Vec<DocTable>) -> (r: Vec<DocTable>)
    ensures
        r@ == sorted_by_name(tables@),
{
    let mut out: Vec<DocTable> = Vec::new();
    let mut keys: Vec<Vec<char>> = Vec::new();
    let mut rest = tables;
    let ghost orig = rest@;
    let total = rest.len();
    let mut k: usize = 0;
    while rest.len() > 0
        invariant
            k + rest@.len() == orig.len(),
            orig.len() == total,
            rest@ == orig.skip(k as int),
            out@ == sorted_by_name(orig.take(k as int)),
            keys@.len() == out@.len(),
            forall|j: int| 0 <= j < keys@.len() ==> #[trigger] keys@[j]@ == table_key_of(out@[j]),
        decreases rest@.len(),
    {
        let x = rest.remove(0);
        assert(orig.take(k + 1).drop_last() =~= orig.take(k as int));
        assert(x == orig[k as int]);
        let xk = chars_of(x.qualified_name().as_str());
        let mut p: usize = out.len();
        while p > 0 && seq_lt_exec(&xk, &keys[p - 1])
            invariant
                p <= out@.len(),
                keys@.len() == out@.len(),
                xk@ == table_key_of(x),
                forall|j: int| 0 <= j < keys@.len() ==> #[trigger] keys@[j]@ == table_key_of(out@[j]),
                forall|j: int| p <= j < out@.len() ==> seq_lt(table_key_of(x), #[trigger] table_key_of(out@[j])),
            decreases p,
        {
            p = p - 1;
        }
        proof {
            lemma_insert_at(out@, x, p as int);
        }
        let ghost before = out@;
        let ghost before_keys = keys@;
        out.insert(p, x);
        keys.insert(p, xk);
        assert(out@ =~= before.take(p as int).push(x) + before.skip(p as int));
        assert forall|j: int| 0 <= j < keys@.len() implies #[trigger] keys@[j]@ == table_key_of(out@[j]) by {
            if j < p {
                assert(keys@[j] == before_keys[j]);
            } else if j > p {
                assert(keys@[j] == before_keys[j - 1]);
            }
        }
        assert(rest@ =~= orig.skip(k + 1));
        k = k + 1;
    }
    assert(orig.take(k as int) =~= orig);
    out
}

/// The enums synthesized from one table's columns, in column order.
pub open spec fn table_enums(schema: Option<Seq<char>>, table: Seq<char>, columns: Seq<ColumnInfo>) -> Seq<
    (Option<Seq<char>>, Seq<char>, Seq<Seq<char>>, Option<Seq<char>>, bool),
>
    decreases columns.len(),
{
    if columns.len() == 0 {
        Seq::empty()
    } else {
        table_enums(schema, table, columns.drop_last()) + match synthesized_enum(schema, table, columns.last()) {
            Some(e) => seq![e],
            None => Seq::empty(),
        }
    }
}

/// The enums synthesized from all tables, in table and column order.
pub open spec fn all_enums(tables: Seq<DocTable>) -> Seq<
    (Option<Seq<char>>, Seq<char>, Seq<Seq<char>>, Option<Seq<char>>, bool),
>
    decreases tables.len(),
{
    if tables.len() == 0 {
        Seq::empty()
    } else {
        all_enums(tables.drop_last()) + table_enums(
            opt_string_view(tables.last().schema),
            tables.last().name@,
            tables.last().columns@,
        )
    }
}

/// What a sequence of enums says.
pub open spec fn enum_views(s: Seq<DocEnum>) -> Seq<(Option<Seq<char>>, Seq<char>, Seq<Seq<char>>, Option<Seq<char>>, bool)> {
    s.map_values(|e: DocEnum| enum_view(e))
}

/// One synthesized enum per inline enum column of every table.
pub fn synthesize_enums(tables: &Vec<DocTable>) -> (r: Vec<DocEnum>)
    ensures
        enum_views(r@) == all_enums(tables@),
{
    let mut r: Vec<DocEnum> = Vec::new();
    let n = tables.len();
    for i in 0..n
        invariant
            n == tables@.len(),
            enum_views(r@) == all_enums(tables@.take(i as int)),
    {
        let table = &tables[i];
        let schema: Option<&str> = match &table.schema {
            Some(s) => Some(s.as_str()),
            None => None,
        };
        assert(opt_str_view(schema) == opt_string_view(table.schema));
        let ghost base = r@;
        let m = table.columns.len();
        for j in 0..m
            invariant
                m == table.columns@.len(),
                opt_str_view(schema) == opt_string_view(table.schema),
                enum_views(r@) == enum_views(base) + table_enums(
                    opt_string_view(table.schema),
                    table.name@,
                    table.columns@.take(j as int),
                ),
        {
            let ghost prev = r@;
            let ghost column = table.columns@[j as int];
            assert(table.columns@.take(j + 1).last() == column);
            match synthesize_enum(schema, table.name.as_str(), &table.columns[j]) {
                Some(e) => {
                    r.push(e);
                    assert(enum_views(r@) =~= enum_views(prev).push(enum_view(e)));
                },
                None => {
                    assert(enum_views(r@) =~= enum_views(prev));
                },
            }
            assert(table.columns@.take(j + 1).drop_last() =~= table.columns@.take(j as int));
            assert(enum_views(r@) =~= enum_views(base) + table_enums(
                opt_string_view(table.schema),
                table.name@,
                table.columns@.take(j + 1),
            ));
        }
        assert(table.columns@.take(m as int) =~= table.columns@);
        assert(tables@.take(i + 1).drop_last() =~= tables@.take(i as int));
        assert(enum_views(r@) =~= all_enums(tables@.take(i + 1)));
    }
    assert(tables@.take(n as int) =~= tables@);
    r
}

/// The schemas that are not empty, in order.
pub open spec fn named_schemas(s: Seq<Seq<char>>) -> Seq<Seq<char>>
    decreases s.len(),
{
    if s.len() == 0 {
        Seq::empty()
    } else if s.last().len() > 0 {
        named_schemas(s.drop_last()).push(s.last())
    } else {
        named_schemas(s.drop_last())
    }
}

/// The schemas a snapshot reports: the walked ones that are not empty.
pub fn project_schemas(effective: &Vec<String>) -> (r: Vec<String>)
    ensures
        string_views(r@) == named_schemas(string_views(effective@)),
{
    let mut r: Vec<String> = Vec::new();
    let n = effective.len();
    for i in 0..n
        invariant
            n == effective@.len(),
            string_views(r@) == named_schemas(string_views(effective@.take(i as int))),
    {
        assert(string_views(effective@.take(i + 1)).drop_last() =~= string_views(effective@.take(i as int)));
        if !effective[i].as_str().is_empty() {
            r.push(effective[i].clone());
        }
        assert(string_views(r@) =~= named_schemas(string_views(effective@.take(i + 1))));
    }
    assert(effective@.take(n as int) =~= effective@);
    r
}

/// The database a snapshot reports: the requested one, unless it is empty.
pub fn project_database(database: &str) -> (r: Option<String>)
    ensures
        opt_string_view(r) == (if database@.len() > 0 { Some(database@) } else { None::<Seq<char>> }),
{
    if database.is_empty() {
        None
    } else {
        Some(string_of(&chars_of(database)))
    }
}

proof fn lemma_lt_irreflexive(a: Seq<char>)
    ensures
        !seq_lt(a, a),
    decreases a.len(),
{
    if a.len() > 0 {
        lemma_lt_irreflexive(a.drop_first());
    }
}

proof fn lemma_lt_asymmetric(a: Seq<char>, b: Seq<char>)
    ensures
        !(seq_lt(a, b) && seq_lt(b, a)),
    decreases a.len(),
{
    if a.len() > 0 && b.len() > 0 && a[0] == b[0] {
        lemma_lt_asymmetric(a.drop_first(), b.drop_first());
    }
}

proof fn lemma_lt_transitive(a: Seq<char>, b: Seq<char>, c: Seq<char>)
    requires
        seq_lt(a, b),
        seq_lt(b, c),
    ensures
        seq_lt(a, c),
    decreases a.len(),
{
    if a.len() > 0 && b.len() > 0 && c.len() > 0 && a[0] == b[0] && b[0] == c[0] {
        lemma_lt_transitive(a.drop_first(), b.drop_first(), c.drop_first());
    }
}

proof fn lemma_lt_total(a: Seq<char>, b: Seq<char>)
    ensures
        seq_lt(a, b) || seq_lt(b, a) || a == b,
    decreases a.len(),
{
    if a.len() > 0 && b.len() > 0 && a[0] == b[0] {
        lemma_lt_total(a.drop_first(), b.drop_first());
        if a.drop_first() == b.drop_first() {
            assert(a =~= seq![a[0]] + a.drop_first());
            assert(b =~= seq![b[0]] + b.drop_first());
        }
    } else if a.len() == 0 && b.len() == 0 {
        assert(a =~= b);
    }
}

/// Not after: `a` does not sort after `b`.
pub open spec fn key_le(a: DocTable, b: DocTable) -> bool {
    !seq_lt(table_key_of(b), table_key_of(a))
}

proof fn lemma_le_transitive(a: DocTable, b: DocTable, c: DocTable)
    requires
        key_le(a, b),
        key_le(b, c),
    ensures
        key_le(a, c),
{
    let (ka, kb, kc) = (table_key_of(a), table_key_of(b), table_key_of(c));
    lemma_lt_total(ka, kb);
    lemma_lt_total(kb, kc);
    lemma_lt_asymmetric(ka, kc);
    if seq_lt(ka, kb) && seq_lt(kb, kc) {
        lemma_lt_transitive(ka, kb, kc);
    }
    lemma_lt_irreflexive(ka);
}

/// The tables are in order of their qualified names.
pub open spec fn is_sorted_by_name(s: Seq<DocTable>) -> bool {
    forall|i: int, j: int| 0 <= i < j < s.len() ==> key_le(#[trigger] s[i], #[trigger] s[j])
}

proof fn lemma_insert_sorted_keeps_order(s: Seq<DocTable>, x: DocTable)
    requires
        is_sorted_by_name(s),
    ensures
        is_sorted_by_name(insert_sorted(s, x)),
        insert_sorted(s, x).to_multiset() == s.to_multiset().insert(x),
        insert_sorted(s, x).len() == s.len() + 1,
        forall|k: int| 0 <= k < insert_sorted(s, x).len() ==> #[trigger] insert_sorted(s, x)[k] == x
            || s.contains(insert_sorted(s, x)[k]),
    decreases s.len(),
{
    broadcast use vstd::seq_lib::group_to_multiset_ensures;

    if s.len() == 0 {
        assert(seq![x] =~= Seq::<DocTable>::empty().push(x));
    } else {
        let last = s.last();
        let t = s.drop_last();
        assert(s =~= t.push(last));
        if seq_lt(table_key_of(x), table_key_of(last)) {
            assert(is_sorted_by_name(t)) by {
                assert forall|i: int, j: int| 0 <= i < j < t.len() implies key_le(#[trigger] t[i], #[trigger] t[j]) by {
                    assert(t[i] == s[i] && t[j] == s[j]);
                }
            }
            lemma_insert_sorted_keeps_order(t, x);
            let inner = insert_sorted(t, x);
            lemma_lt_asymmetric(table_key_of(x), table_key_of(last));
            assert forall|k: int| 0 <= k < inner.len() implies key_le(#[trigger] inner[k], last) by {
                if inner[k] != x {
                    let m = choose|m: int| 0 <= m < t.len() && t[m] == inner[k];
                    assert(s[m] == t[m]);
                    assert(key_le(s[m], s[s.len() - 1]));
                }
            }
            let out = inner.push(last);
            assert forall|i: int, j: int| 0 <= i < j < out.len() implies key_le(#[trigger] out[i], #[trigger] out[j]) by {
                if j < inner.len() {
                    assert(out[i] == inner[i] && out[j] == inner[j]);
                } else {
                    assert(out[i] == inner[i]);
                }
            }
            assert forall|k: int| 0 <= k < out.len() implies #[trigger] out[k] == x || s.contains(out[k]) by {
                if k < inner.len() {
                    if inner[k] != x {
                        let m = choose|m: int| 0 <= m < t.len() && t[m] == inner[k];
                        assert(s[m] == t[m]);
                    }
                } else {
                    assert(s[s.len() - 1] == last);
                }
            }
        } else {
            let out = s.push(x);
            assert forall|i: int, j: int| 0 <= i < j < out.len() implies key_le(#[trigger] out[i], #[trigger] out[j]) by {
                if j < s.len() {
                    assert(out[i] == s[i] && out[j] == s[j]);
                } else {
                    assert(out[i] == s[i]);
                    if i < s.len() - 1 {
                        assert(key_le(s[i], s[s.len() - 1]));
                        lemma_le_transitive(s[i], last, x);
                    }
                }
            }
            assert forall|k: int| 0 <= k < out.len() implies #[trigger] out[k] == x || s.contains(out[k]) by {
                if k < s.len() {
                    assert(out[k] == s[k]);
                }
            }
        }
    }
}

/// Sorting by qualified name puts the tables in name order and keeps
/// every table, each as often as it was given.
pub proof fn lemma_sorted_by_name(s: Seq<DocTable>)
    ensures
        is_sorted_by_name(sorted_by_name(s)),
        sorted_by_name(s).to_multiset() == s.to_multiset(),
    decreases s.len(),
{
    broadcast use vstd::seq_lib::group_to_multiset_ensures;

    if s.len() > 0 {
        lemma_sorted_by_name(s.drop_last());
        lemma_insert_sorted_keeps_order(sorted_by_name(s.drop_last()), s.last());
        assert(s =~= s.drop_last().push(s.last()));
    }
}

/// The decision taken before a table's metadata is read: a table for which
/// no slot could be had, or whose run was cancelled, is skipped; otherwise
/// its collection starts, reported as the progress returned.
pub fn table_gate(schema_name: &str, name: &str, index: usize, total: usize, no_slot: bool, cancelled: bool) -> (r:
    Result<CollectProgress, SnapshotWarning>)
    ensures
        r is Err <==> (no_slot || cancelled),
        match r {
            Ok(p) => p.completed == index && p.total == total && p.current@ == schema_name@ + "."@ + name@,
            Err(w) => w@ == (WarningView::TableSkipped { table: name@, reason: cancellation_reason(no_slot) }),
        },
{
    if no_slot || cancelled {
        Err(cancellation_warning(name, no_slot))
    } else {
        Ok(CollectProgress { completed: index, total, current: table_label(schema_name, name) })
    }
}

/// A table's columns, or the warning that skips the table when they could
/// not be read.
pub fn accept_columns(schema_name: &str, name: &str, columns: Result<Vec<ColumnInfo>, String>) -> (r: Result<
    Vec<ColumnInfo>,
    SnapshotWarning,
>)
    ensures
        r is Ok <==> columns is Ok,
        r is Ok ==> r->Ok_0@ == columns->Ok_0@,
        r is Err ==> r->Err_0@ == (WarningView::TableSkipped {
            table: schema_name@ + "."@ + name@,
            reason: columns->Err_0@,
        }),
{
    match columns {
        Ok(c) => Ok(c),
        Err(error) => Err(columns_unavailable(schema_name, name, error)),
    }
}

/// The progress reported once every table has been collected.
pub fn collection_done(total: usize) -> (r: CollectProgress)
    ensures
        r.completed == total,
        r.total == total,
        r.current@ == Seq::<char>::empty(),
{
    CollectProgress { completed: total, total, current: String::new() }
}

/// The snapshot of a finished collection: format version 1; the project
/// named as the options ask, with the engine, the database unless it is
/// empty, the walked schemas that are not empty, and the time given; the
/// collected tables sorted by qualified name; one enum per inline enum
/// column of those tables; and the run's warnings followed by the tables'
/// warnings in outcome order.
pub fn finish_snapshot(
    options: &CollectOptions,
    engine: String,
    effective_schemas: &Vec<String>,
    outcomes: Vec<TableOutcome>,
    warnings: Vec<SnapshotWarning>,
    generated_at: String,
) -> (r: SchemaSnapshot)
    ensures
        r.format_version == 1,
        r.project.name@ == options.project_name@,
        r.project.database_type == engine,
        opt_string_view(r.project.database) == (if options.database@.len() > 0 {
            Some(options.database@)
        } else {
            None::<Seq<char>>
        }),
        string_views(r.project.schemas@) == named_schemas(string_views(effective_schemas@)),
        r.project.generated_at == generated_at,
        r.project.note is None,
        r.tables@ == sorted_by_name(ok_tables(outcomes@)),
        enum_views(r.enums@) == all_enums(r.tables@),
        r.warnings@ == warnings@ + outcome_warnings(outcomes@),
{
    let mut all_warnings = warnings;
    let tables = sort_tables(merge_outcomes(outcomes, &mut all_warnings));
    let enums = synthesize_enums(&tables);
    let project = ProjectMeta {
        name: options.project_name.clone(),
        database_type: engine,
        database: project_database(options.database.as_str()),
        schemas: project_schemas(effective_schemas),
        generated_at,
        note: None,
    };
    SchemaSnapshot { format_version: 1, project, tables, enums, warnings: all_warnings }
}

/// A table's schema, or the empty name when it has none.
pub open spec fn schema_or_empty(schema: Option<String>) -> Seq<char> {
    match schema {
        Some(s) => s@,
        None => Seq::empty(),
    }
}

/// Whether the table filter selects a documented table.
pub open spec fn table_selected(filter: Seq<Seq<char>>, t: DocTable) -> bool {
    includes_spec(filter, schema_or_empty(t.schema), t.name@)
}

/// Every table kept by the filter is one the filter selects.
pub proof fn lemma_selected_are_included(filter: Seq<Seq<char>>, schema: Seq<char>, tables: Seq<TableInfo>)
    ensures
        forall|i: int|
            0 <= i < selected(filter, schema, tables).len() ==> includes_spec(
                filter,
                schema,
                #[trigger] selected(filter, schema, tables)[i].name@,
            ),
    decreases tables.len(),
{
    if tables.len() > 0 {
        lemma_selected_are_included(filter, schema, tables.drop_last());
    }
}

/// A table assembled from a selected table of a walked schema is selected
/// by the filter.
pub proof fn lemma_assembled_table_is_selected(filter: Seq<Seq<char>>, schema_name: Seq<char>, info: TableInfo, t: DocTable)
    requires
        includes_spec(filter, schema_name, info.name@),
        t.name@ == info.name@,
        opt_string_view(t.schema) == (if schema_name.len() > 0 { Some(schema_name) } else { None::<Seq<char>> }),
    ensures
        table_selected(filter, t),
{
    if schema_name.len() == 0 {
        assert(schema_or_empty(t.schema) =~= schema_name);
    }
}

/// The tables of the collected outcomes are selected when every collected
/// table is.
proof fn lemma_ok_tables_selected(filter: Seq<Seq<char>>, outcomes: Seq<TableOutcome>)
    requires
        forall|i: int| 0 <= i < outcomes.len() && #[trigger] outcomes[i] is Ok ==> table_selected(filter, outcomes[i]->Ok_0.0),
    ensures
        forall|i: int| 0 <= i < ok_tables(outcomes).len() ==> table_selected(filter, #[trigger] ok_tables(outcomes)[i]),
    decreases outcomes.len(),
{
    if outcomes.len() > 0 {
        let rest = outcomes.drop_last();
        assert forall|i: int| 0 <= i < rest.len() && #[trigger] rest[i] is Ok implies table_selected(filter, rest[i]->Ok_0.0) by {
            assert(rest[i] == outcomes[i]);
        }
        lemma_ok_tables_selected(filter, rest);
        let last = outcomes[outcomes.len() - 1];
        match last {
            Ok((t, _)) => {
                assert(table_selected(filter, t));
                assert(ok_tables(outcomes) == ok_tables(rest).push(t));
                assert forall|i: int| 0 <= i < ok_tables(outcomes).len() implies table_selected(
                    filter,
                    #[trigger] ok_tables(outcomes)[i],
                ) by {
                    if i < ok_tables(rest).len() {
                        assert(ok_tables(outcomes)[i] == ok_tables(rest)[i]);
                    }
                }
            },
            Err(_) => {
                assert(ok_tables(outcomes) == ok_tables(rest));
            },
        }
    }
}

/// Every table of a finished snapshot is one the filter selects, when every
/// collected table was: sorting loses and adds no table.
pub proof fn lemma_snapshot_tables_are_selected(filter: Seq<Seq<char>>, outcomes: Seq<TableOutcome>)
    requires
        forall|i: int| 0 <= i < outcomes.len() && #[trigger] outcomes[i] is Ok ==> table_selected(filter, outcomes[i]->Ok_0.0),
    ensures
        forall|i: int|
            0 <= i < sorted_by_name(ok_tables(outcomes)).len() ==> table_selected(
                filter,
                #[trigger] sorted_by_name(ok_tables(outcomes))[i],
            ),
{
    broadcast use vstd::seq_lib::group_to_multiset_ensures;

    let tables = ok_tables(outcomes);
    let sorted = sorted_by_name(tables);
    lemma_ok_tables_selected(filter, outcomes);
    lemma_sorted_by_name(tables);
    assert forall|i: int| 0 <= i < sorted.len() implies table_selected(filter, #[trigger] sorted[i]) by {
        assert(sorted.to_multiset().count(sorted[i]) > 0);
        assert(tables.contains(sorted[i]));
        let j = choose|j: int| 0 <= j < tables.len() && tables[j] == sorted[i];
        assert(table_selected(filter, tables[j]));
    }
}

/// `a` comes before `b` in `String` order exactly when `a` is a proper
/// prefix of `b`, or the two first differ at a position where `a` has the
/// smaller character.
pub proof fn lemma_seq_lt_is_lexicographic(a: Seq<char>, b: Seq<char>)
    ensures
        seq_lt(a, b) <==> (a.len() < b.len() && b.take(a.len() as int) == a) || exists|i: int|
            0 <= i < a.len() && i < b.len() && a.take(i) == b.take(i) && #[trigger] a[i] < b[i],
    decreases a.len(),
{
    if a.len() == 0 {
        assert(b.take(0) =~= a);
    } else if b.len() == 0 {
    } else if a[0] != b[0] {
        if a[0] < b[0] {
            assert(a.take(0) =~= b.take(0));
            assert(a[0] < b[0]);
        } else {
            if a.len() < b.len() && b.take(a.len() as int) == a {
                assert(b.take(a.len() as int)[0] == b[0]);
            }
            assert forall|i: int|
                0 <= i < a.len() && i < b.len() && a.take(i) == b.take(i) implies !(#[trigger] a[i] < b[i]) by {
                if i > 0 {
                    assert(a.take(i)[0] == b.take(i)[0]);
                }
            }
        }
    } else {
        let a1 = a.drop_first();
        let b1 = b.drop_first();
        lemma_seq_lt_is_lexicographic(a1, b1);
        if a.len() < b.len() && b.take(a.len() as int) == a {
            assert(b1.take(a1.len() as int) =~= b.take(a.len() as int).drop_first());
        }
        if a1.len() < b1.len() && b1.take(a1.len() as int) == a1 {
            assert(b.take(a.len() as int) =~= seq![b[0]] + b1.take(a1.len() as int));
            assert(a =~= seq![a[0]] + a1);
        }
        assert forall|i: int|
            0 <= i < a.len() && i < b.len() && a.take(i) == b.take(i) && #[trigger] a[i] < b[i] implies (0 <= i - 1
                < a1.len() && i - 1 < b1.len() && a1.take(i - 1) == b1.take(i - 1) && a1[i - 1] < b1[i - 1]) by {
            assert(i != 0);
            assert(a1.take(i - 1) =~= a.take(i).drop_first());
            assert(b1.take(i - 1) =~= b.take(i).drop_first());
        }
        assert forall|j: int|
            0 <= j < a1.len() && j < b1.len() && a1.take(j) == b1.take(j) && #[trigger] a1[j] < b1[j] implies (0 <= j + 1
                < a.len() && j + 1 < b.len() && a.take(j + 1) == b.take(j + 1) && a[j + 1] < b[j + 1]) by {
            assert(a.take(j + 1) =~= seq![a[0]] + a1.take(j));
            assert(b.take(j + 1) =~= seq![b[0]] + b1.take(j));
        }
    }
}

/// A name sorts before every longer name it is a prefix of, as `String`
/// order has it: `orders` before `orders_archive`.
pub proof fn lemma_prefix_sorts_first(a: Seq<char>, b: Seq<char>)
    requires
        b.len() > 0,
    ensures
        seq_lt(a, a + b),
        !seq_lt(a + b, a),
        !seq_lt(a, a),
{
    lemma_seq_lt_is_lexicographic(a, a + b);
    assert((a + b).take(a.len() as int) =~= a);
    lemma_seq_lt_is_lexicographic(a + b, a);
    lemma_seq_lt_is_lexicographic(a, a);
    assert forall|i: int|
        0 <= i < (a + b).len() && i < a.len() && (a + b).take(i) == a.take(i) implies !(#[trigger] (a + b)[i] < a[i]) by {
    }
    assert forall|i: int| 0 <= i < a.len() && i < a.len() && a.take(i) == a.take(i) implies !(#[trigger] a[i] < a[i]) by {
    }
}

/// With a non-empty table filter, a table is selected exactly when some
/// entry is its bare name or its `schema.name`, character for character; an
/// entry that merely begins or ends like the name selects nothing.
pub proof fn lemma_filter_entries_match_exactly(tables: Seq<Seq<char>>, schema: Seq<char>, table: Seq<char>)
    requires
        tables.len() > 0,
    ensures
        includes_spec(tables, schema, table) ==> exists|i: int|
            0 <= i < tables.len() && (#[trigger] tables[i] =~= table || tables[i] =~= schema + "."@ + table),
        (forall|i: int| 0 <= i < tables.len() ==> #[trigger] tables[i] != table && tables[i] != schema + "."@ + table)
            ==> !includes_spec(tables, schema, table),
        forall|i: int| 0 <= i < tables.len() && #[trigger] tables[i] == table ==> includes_spec(tables, schema, table),
        forall|i: int|
            0 <= i < tables.len() && #[trigger] tables[i] == schema + "."@ + table ==> includes_spec(tables, schema, table),
{
}

/// An empty table filter selects every table of every schema.
pub proof fn lemma_empty_filter_selects_everything(schema: Seq<char>, table: Seq<char>)
    ensures
        includes_spec(Seq::empty(), schema, table),
{
}

} // verus!
