use dbx_docs::dbml::{
    column_settings, looks_like_expression, qualified, quote_identifier, render_default, render_index, render_note,
    render_table, render_type,
};
use dbx_docs::model::{ColumnInfo, ColumnNote, DocTable, IndexInfo, NoteSource, SnapshotWarning, TableKind};
use dbx_docs::name_map::NameMap;

fn col(name: &str, data_type: &str) -> ColumnInfo {
    ColumnInfo { name: name.to_string(), data_type: data_type.to_string(), ..ColumnInfo::default() }
}

fn doc_table(name: &str, columns: Vec<ColumnInfo>, indexes: Vec<IndexInfo>) -> DocTable {
    DocTable {
        schema: Some("public".to_string()),
        name: name.to_string(),
        kind: TableKind::Table,
        columns,
        indexes,
        foreign_keys: vec![],
        group_id: None,
        note: None,
        note_source: NoteSource::Absent,
        shadowed_note: None,
        column_notes: NameMap::new(),
        estimated_rows: None,
        view_definition: None,
    }
}

fn index(name: &str, columns: &[&str]) -> IndexInfo {
    IndexInfo {
        name: name.to_string(),
        columns: columns.iter().map(|c| c.to_string()).collect(),
        is_unique: false,
        is_primary: false,
        filter: None,
        index_type: None,
        included_columns: None,
        comment: None,
    }
}

#[test]
fn plain_identifiers_are_not_quoted() {
    assert_eq!(quote_identifier("orders"), "orders");
    assert_eq!(quote_identifier("order_items"), "order_items");
    assert_eq!(quote_identifier("_private"), "_private");
    assert_eq!(quote_identifier("t2"), "t2");
}

#[test]
fn irregular_identifiers_are_quoted() {
    assert_eq!(quote_identifier("order items"), "\"order items\"");
    assert_eq!(quote_identifier("2fast"), "\"2fast\"");
    assert_eq!(quote_identifier("user-profile"), "\"user-profile\"");
    assert_eq!(quote_identifier(""), "\"\"");
}

#[test]
fn embedded_double_quotes_are_escaped() {
    assert_eq!(quote_identifier("we\"ird"), "\"we\\\"ird\"");
}

#[test]
fn non_ascii_identifiers_are_quoted() {
    assert_eq!(quote_identifier("café"), "\"café\"");
}

#[test]
fn qualified_names_quote_each_part() {
    assert_eq!(qualified(Some("public"), "orders", true), "public.orders");
    assert_eq!(qualified(Some("my schema"), "orders", true), "\"my schema\".orders");
    assert_eq!(qualified(Some("public"), "orders", false), "orders");
    assert_eq!(qualified(Some(""), "orders", true), "orders");
    assert_eq!(qualified(None, "2x", true), "\"2x\"");
}

#[test]
fn notes_always_use_triple_quotes_so_apostrophes_are_safe() {
    assert_eq!(render_note("Bob's orders"), "'''Bob's orders'''");
}

#[test]
fn notes_escape_a_literal_triple_quote() {
    assert_eq!(render_note("a ''' b"), "'''a \\''' b'''");
}

#[test]
fn multiline_notes_are_preserved() {
    assert_eq!(render_note("line one\nline two"), "'''line one\nline two'''");
}

#[test]
fn a_note_ending_in_a_single_quote_does_not_break_the_delimiter() {
    assert_eq!(render_note("Deprecated in '24'"), "'''Deprecated in '24\\''''");
}

#[test]
fn note_edge_cases() {
    assert_eq!(render_note(""), "''''''");
    assert_eq!(render_note("'"), "'''\\''''");
    assert_eq!(render_note("''"), "''''\\''''");
    assert_eq!(render_note("'''"), "'''\\''\\''''");
    assert_eq!(render_note("'''''"), "'''\\'\\'\\''\\''''");
}

#[test]
fn backslashes_in_a_note_are_kept_as_they_are() {
    assert_eq!(render_note("\\"), "'''\\'''");
    assert_eq!(render_note("C:\\path"), "'''C:\\path'''");
    assert_eq!(render_note("a\\'"), "'''a\\\\''''");
    assert_eq!(render_note("it's"), "'''it's'''");
}

#[test]
fn expression_defaults_use_backticks_and_literals_use_quotes() {
    let mut expression = col("created_at", "timestamptz");
    expression.column_default = Some("now()".to_string());
    assert_eq!(render_default(&expression).as_deref(), Some("default: `now()`"));

    let mut sequence = col("id", "integer");
    sequence.column_default = Some("nextval('orders_id_seq'::regclass)".to_string());
    assert_eq!(render_default(&sequence).as_deref(), Some("default: `nextval('orders_id_seq'::regclass)`"));

    let mut literal = col("status", "text");
    literal.column_default = Some("'pending'".to_string());
    assert_eq!(render_default(&literal).as_deref(), Some("default: 'pending'"));

    let mut number = col("qty", "integer");
    number.column_default = Some("0".to_string());
    assert_eq!(render_default(&number).as_deref(), Some("default: 0"));

    let mut boolean = col("active", "boolean");
    boolean.column_default = Some("true".to_string());
    assert_eq!(render_default(&boolean).as_deref(), Some("default: true"));

    assert_eq!(render_default(&col("plain", "text")), None);
}

#[test]
fn numbers_in_every_float_form_are_literals() {
    for literal in ["1.5e3", "-2", "+.5", "1.", "1E-3", "inf", "-Infinity", "NaN", "NULL", "False"] {
        assert!(!looks_like_expression(literal), "{literal} should be a literal");
    }
    for expression in ["1e", ".", "e5", "0x10", "1_000", "CURRENT_TIMESTAMP", "'", "1 2", "--1"] {
        assert!(looks_like_expression(expression), "{expression} should be an expression");
    }
}

#[test]
fn defaults_are_trimmed_and_blank_defaults_are_dropped() {
    let mut padded = col("a", "text");
    padded.column_default = Some("  'x'  ".to_string());
    assert_eq!(render_default(&padded).as_deref(), Some("default: 'x'"));
    let mut blank = col("b", "text");
    blank.column_default = Some(" \t ".to_string());
    assert_eq!(render_default(&blank), None);
    let mut unicode_spaces = col("c", "timestamptz");
    unicode_spaces.column_default = Some("\u{a0}now()\u{2003}\u{3000}".to_string());
    assert_eq!(render_default(&unicode_spaces).as_deref(), Some("default: `now()`"));
}

#[test]
fn types_pass_through_verbatim_when_already_parameterised() {
    assert_eq!(render_type(&col("total", "numeric(10,2)")), "numeric(10,2)");
    assert_eq!(render_type(&col("meta", "jsonb")), "jsonb");
    assert_eq!(render_type(&col("at", "timestamp with time zone")), "timestamp with time zone");
}

#[test]
fn bare_types_are_reconstructed_from_precision_metadata() {
    let mut varchar = col("email", "character varying");
    varchar.character_maximum_length = Some(255);
    assert_eq!(render_type(&varchar), "character varying(255)");

    let mut decimal = col("total", "numeric");
    decimal.numeric_precision = Some(10);
    decimal.numeric_scale = Some(2);
    assert_eq!(render_type(&decimal), "numeric(10,2)");

    let mut integer = col("count", "numeric");
    integer.numeric_precision = Some(8);
    integer.numeric_scale = Some(0);
    assert_eq!(render_type(&integer), "numeric(8)");
}

#[test]
fn non_positive_precision_is_ignored() {
    let mut zero = col("x", " varchar ");
    zero.character_maximum_length = Some(0);
    zero.numeric_precision = Some(-1);
    assert_eq!(render_type(&zero), "varchar");
    let mut parameterised = col("y", "varchar(10)");
    parameterised.character_maximum_length = Some(20);
    assert_eq!(render_type(&parameterised), "varchar(10)");
}

#[test]
fn column_settings_come_in_dbml_order() {
    let mut column = col("id", "integer");
    column.is_primary_key = true;
    column.extra = Some("GENERATED BY DEFAULT AS IDENTITY".to_string());
    column.column_default = Some("42".to_string());
    column.comment = Some("The key".to_string());
    let table = doc_table("orders", vec![], vec![]);
    assert_eq!(column_settings(&column, &table), vec!["pk", "increment", "default: 42", "note: '''The key'''"]);

    let mut local = doc_table("orders", vec![], vec![]);
    local.column_notes.insert(
        "id".to_string(),
        ColumnNote { note: "Local".to_string(), source: NoteSource::Local, shadowed: None },
    );
    assert_eq!(column_settings(&column, &local), vec!["pk", "increment", "default: 42", "note: '''Local'''"]);

    let mut blank_comment = col("c", "text");
    blank_comment.comment = Some("  ".to_string());
    blank_comment.is_nullable = true;
    assert!(column_settings(&blank_comment, &table).is_empty());
}

#[test]
fn index_lines_quote_columns_and_escape_the_name() {
    let mut idx = index("it's", &["a b", "c"]);
    idx.is_unique = true;
    assert_eq!(render_index(&idx), "    (\"a b\", c) [name: 'it\\'s', unique]\n");
}

#[test]
fn renders_a_table_with_columns_and_settings() {
    let mut id = col("id", "integer");
    id.is_primary_key = true;
    id.extra = Some("auto_increment".to_string());

    let mut user_id = col("user_id", "integer");
    user_id.is_nullable = false;

    // ColumnInfo::default() gives is_nullable=false (i.e. NOT NULL), so a
    // genuinely nullable column has to say so explicitly.
    let mut nullable = col("shipped_at", "timestamptz");
    nullable.is_nullable = true;

    let mut table = doc_table("orders", vec![id, user_id, nullable], vec![]);
    table.note = Some("Checkout rows.".to_string());
    table.column_notes.insert(
        "user_id".to_string(),
        ColumnNote { note: "Owning customer".to_string(), source: NoteSource::Local, shadowed: None },
    );

    let mut warnings = Vec::new();
    let out = render_table(&table, false, &mut warnings);

    assert!(out.starts_with("Table orders {\n"), "got:\n{out}");
    assert!(out.contains("id integer [pk, increment]"), "got:\n{out}");
    assert!(out.contains("user_id integer [not null, note: '''Owning customer''']"), "got:\n{out}");
    assert!(out.contains("shipped_at timestamptz\n"), "got:\n{out}");
    assert!(out.contains("Note: '''Checkout rows.'''"), "got:\n{out}");
    assert!(out.ends_with("}\n"), "got:\n{out}");
}

#[test]
fn a_whole_table_renders_exactly() {
    let mut id = col("id", "integer");
    id.is_primary_key = true;
    let mut name = col("name", "varchar");
    name.character_maximum_length = Some(40);
    name.is_nullable = true;
    let mut table = doc_table("orders", vec![id, name], vec![index("idx_name", &["name"])]);
    table.note = Some("Rows.".to_string());
    let mut warnings = Vec::new();
    let out = render_table(&table, true, &mut warnings);
    assert_eq!(
        out,
        "Table public.orders {\n  id integer [pk]\n  name varchar(40)\n\n  Indexes {\n    (name) [name: 'idx_name']\n  }\n\n  Note: '''Rows.'''\n}\n"
    );
    assert!(warnings.is_empty());
}

#[test]
fn qualifies_the_table_name_when_requested() {
    let table = doc_table("orders", vec![col("id", "integer")], vec![]);
    let mut warnings = Vec::new();
    assert!(render_table(&table, true, &mut warnings).starts_with("Table public.orders {"));
}

#[test]
fn renders_an_indexes_block() {
    let index = IndexInfo {
        name: "idx_orders_user_placed".to_string(),
        columns: vec!["user_id".to_string(), "placed_at".to_string()],
        is_unique: false,
        is_primary: false,
        filter: None,
        index_type: None,
        included_columns: None,
        comment: None,
    };
    let table = doc_table("orders", vec![col("user_id", "integer")], vec![index]);

    let mut warnings = Vec::new();
    let out = render_table(&table, false, &mut warnings);

    assert!(out.contains("Indexes {"), "got:\n{out}");
    assert!(out.contains("(user_id, placed_at) [name: 'idx_orders_user_placed']"), "got:\n{out}");
    assert!(warnings.is_empty());
}

#[test]
fn a_unique_index_carries_the_unique_setting() {
    let index = IndexInfo {
        name: "uq_orders_ref".to_string(),
        columns: vec!["reference".to_string()],
        is_unique: true,
        is_primary: false,
        filter: None,
        index_type: None,
        included_columns: None,
        comment: None,
    };
    let table = doc_table("orders", vec![col("reference", "text")], vec![index]);
    let mut warnings = Vec::new();
    let out = render_table(&table, false, &mut warnings);
    assert!(out.contains("(reference) [name: 'uq_orders_ref', unique]"), "got:\n{out}");
}

#[test]
fn the_primary_key_index_is_skipped_because_columns_already_carry_pk() {
    let index = IndexInfo {
        name: "orders_pkey".to_string(),
        columns: vec!["id".to_string()],
        is_unique: true,
        is_primary: true,
        filter: None,
        index_type: None,
        included_columns: None,
        comment: None,
    };
    let mut id = col("id", "integer");
    id.is_primary_key = true;
    let table = doc_table("orders", vec![id], vec![index]);

    let mut warnings = Vec::new();
    let out = render_table(&table, false, &mut warnings);
    assert!(!out.contains("orders_pkey"), "got:\n{out}");
}

#[test]
fn a_filtered_index_is_omitted_and_warned_about() {
    let index = IndexInfo {
        name: "idx_orders_open".to_string(),
        columns: vec!["status".to_string()],
        is_unique: false,
        is_primary: false,
        filter: Some("status <> 'cancelled'".to_string()),
        index_type: None,
        included_columns: None,
        comment: None,
    };
    let table = doc_table("orders", vec![col("status", "text")], vec![index]);

    let mut warnings = Vec::new();
    let out = render_table(&table, false, &mut warnings);

    assert!(!out.contains("idx_orders_open"), "filtered index must not be emitted, got:\n{out}");
    assert_eq!(warnings.len(), 1);
    match &warnings[0] {
        SnapshotWarning::DbmlOmitted { table, item, reason } => {
            assert_eq!(table, "public.orders");
            assert_eq!(item, "idx_orders_open");
            assert!(reason.contains("filter"), "got {reason}");
        }
        other => panic!("unexpected warning: {other:?}"),
    }
}

#[test]
fn a_covering_index_is_omitted_and_warned_about_after_earlier_warnings() {
    let mut covering = index("idx_cover", &["a"]);
    covering.included_columns = Some(vec!["b".to_string()]);
    let mut blank_filter = index("idx_blank_filter", &["a"]);
    blank_filter.filter = Some("   ".to_string());
    let empty = index("idx_empty", &[]);
    let mut table = doc_table("orders", vec![col("a", "text")], vec![covering, blank_filter, empty]);
    table.schema = None;
    let mut warnings = vec![SnapshotWarning::CommentsUnsupported { engine: "Sqlite".to_string() }];
    let out = render_table(&table, true, &mut warnings);
    assert!(out.starts_with("Table orders {"));
    assert!(out.contains("    (a) [name: 'idx_blank_filter']\n"), "got:\n{out}");
    assert!(!out.contains("idx_cover") && !out.contains("idx_empty"), "got:\n{out}");
    assert_eq!(warnings.len(), 3);
    match &warnings[1] {
        SnapshotWarning::DbmlOmitted { table, item, reason } => {
            assert_eq!(table, "orders");
            assert_eq!(item, "idx_cover");
            assert_eq!(reason, "included columns have no DBML equivalent");
        }
        other => panic!("unexpected warning: {other:?}"),
    }
    match &warnings[2] {
        SnapshotWarning::DbmlOmitted { table, item, reason } => {
            assert_eq!(table, "orders");
            assert_eq!(item, "idx_empty");
            assert_eq!(reason, "an index without columns has no DBML equivalent");
        }
        other => panic!("unexpected warning: {other:?}"),
    }
}

#[test]
fn a_blank_table_note_is_left_out() {
    let mut table = doc_table("t", vec![], vec![]);
    table.note = Some(" \n ".to_string());
    let mut warnings = Vec::new();
    assert_eq!(render_table(&table, false, &mut warnings), "Table t {\n}\n");
}
