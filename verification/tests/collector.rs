use dbx_docs::collector::{
    accept_columns, assemble_table, cancellation_warning, capability_warnings, collection_done,
    columns_unavailable, finish_snapshot, merge_outcomes, project_database, project_schemas, schema_unavailable,
    sort_tables, synthesize_enum, synthesize_enums, table_gate, table_kind_from, table_label, CollectOptions,
    TableOutcome,
};
use dbx_docs::model::{
    engine_name, ColumnInfo, DatabaseType, DocTable, NoteSource, SnapshotWarning, TableInfo, TableKind,
};
use dbx_docs::name_map::NameMap;
use dbx_docs::request::DocsSnapshotRequest;

fn doc_table(schema: Option<&str>, name: &str) -> DocTable {
    DocTable {
        schema: schema.map(|s| s.to_string()),
        name: name.to_string(),
        kind: TableKind::Table,
        columns: vec![],
        indexes: vec![],
        foreign_keys: vec![],
        group_id: None,
        note: None,
        note_source: NoteSource::Absent,
        shadowed_note: None,
        column_notes: NameMap::new(),
        estimated_rows: None,
        view_definition: None,
    }
}

fn info(name: &str, table_type: &str, comment: Option<&str>) -> TableInfo {
    TableInfo { name: name.to_string(), table_type: table_type.to_string(), comment: comment.map(|c| c.to_string()) }
}

#[test]
fn table_kind_maps_from_the_engine_reported_type() {
    assert_eq!(table_kind_from("TABLE"), TableKind::Table);
    assert_eq!(table_kind_from("BASE TABLE"), TableKind::Table);
    assert_eq!(table_kind_from("VIEW"), TableKind::View);
    assert_eq!(table_kind_from("MATERIALIZED VIEW"), TableKind::MaterializedView);
    assert_eq!(table_kind_from("materialized_view"), TableKind::MaterializedView);
    assert_eq!(table_kind_from("something else"), TableKind::Table);
}

#[test]
fn table_kind_ignores_surrounding_whitespace_and_case() {
    assert_eq!(table_kind_from("  view \n"), TableKind::View);
    assert_eq!(table_kind_from("Materialized View"), TableKind::MaterializedView);
    assert_eq!(table_kind_from(""), TableKind::Table);
}

#[test]
fn table_filter_is_empty_means_include_everything() {
    let options = CollectOptions {
        database: "shop".to_string(),
        schemas: vec!["public".to_string()],
        tables: vec![],
        project_name: "Ecommerce".to_string(),
    };
    assert!(options.includes_table("public", "orders"));
    assert!(options.includes_table("public", "anything"));
}

#[test]
fn table_filter_matches_bare_and_qualified_names() {
    let options = CollectOptions {
        database: "shop".to_string(),
        schemas: vec!["public".to_string()],
        tables: vec!["orders".to_string(), "analytics.daily_sales".to_string()],
        project_name: "Ecommerce".to_string(),
    };
    assert!(options.includes_table("public", "orders"));
    assert!(options.includes_table("analytics", "daily_sales"));
    assert!(!options.includes_table("public", "users"));
    assert!(!options.includes_table("public", "daily_sales"));
}

#[test]
fn synthesises_a_named_enum_from_an_inline_enum_column() {
    let mut column = ColumnInfo { name: "status".to_string(), data_type: "enum".to_string(), ..Default::default() };
    column.enum_values = Some(vec!["pending".to_string(), "shipped".to_string()]);

    let synthesized = synthesize_enum(Some("public"), "orders", &column).expect("enum");

    assert_eq!(synthesized.name, "orders_status");
    assert_eq!(synthesized.values, vec!["pending", "shipped"]);
    assert!(synthesized.synthesized);
}

#[test]
fn a_column_without_enum_values_synthesises_nothing() {
    let column = ColumnInfo { name: "status".to_string(), data_type: "text".to_string(), ..Default::default() };
    assert!(synthesize_enum(Some("public"), "orders", &column).is_none());
}

#[test]
fn an_empty_enum_value_list_synthesises_nothing() {
    let mut column = ColumnInfo { name: "status".to_string(), ..Default::default() };
    column.enum_values = Some(vec![]);
    assert!(synthesize_enum(None, "orders", &column).is_none());
}

#[test]
fn engine_capabilities_decide_the_capability_warnings() {
    let none = capability_warnings("Postgres", true, true);
    assert!(none.is_empty());
    let both = capability_warnings("Sqlite", false, false);
    assert_eq!(both.len(), 2);
    match (&both[0], &both[1]) {
        (SnapshotWarning::CommentsUnsupported { engine: a }, SnapshotWarning::NoForeignKeyMetadata { engine: b }) => {
            assert_eq!(a, "Sqlite");
            assert_eq!(b, "Sqlite");
        }
        other => panic!("unexpected warnings: {other:?}"),
    }
    let fk_only = capability_warnings("Mysql", true, false);
    assert!(matches!(&fk_only[..], [SnapshotWarning::NoForeignKeyMetadata { .. }]));
}

#[test]
fn requested_schemas_win_and_an_empty_list_walks_one_unnamed_schema() {
    let mut options = CollectOptions {
        database: "shop".to_string(),
        schemas: vec!["sales".to_string()],
        tables: vec![],
        project_name: "p".to_string(),
    };
    assert_eq!(options.effective_schemas(vec!["public".to_string()]), vec!["sales"]);
    options.schemas.clear();
    assert_eq!(options.effective_schemas(vec!["public".to_string(), "x".to_string()]), vec!["public", "x"]);
    assert_eq!(options.effective_schemas(vec![]), vec![""]);
    assert_eq!(project_schemas(&vec!["".to_string()]), Vec::<String>::new());
    assert_eq!(project_schemas(&vec!["a".to_string(), "".to_string(), "b".to_string()]), vec!["a", "b"]);
}

#[test]
fn only_selected_tables_are_collected_in_listing_order() {
    let options = CollectOptions {
        database: "shop".to_string(),
        schemas: vec![],
        tables: vec!["orders".to_string(), "sales.items".to_string()],
        project_name: "p".to_string(),
    };
    let listed = vec![info("items", "TABLE", None), info("users", "TABLE", None), info("orders", "VIEW", None)];
    let chosen = options.select_tables("sales", listed);
    let names: Vec<&str> = chosen.iter().map(|t| t.name.as_str()).collect();
    assert_eq!(names, vec!["items", "orders"]);
}

#[test]
fn a_table_is_assembled_from_what_the_engine_reported() {
    let (table, warnings) = assemble_table(
        "public",
        info("orders", "BASE TABLE", Some("Checkout rows.")),
        vec![ColumnInfo { name: "id".to_string(), ..Default::default() }],
        Err("no index access".to_string()),
        Ok(vec![]),
    );
    assert_eq!(table.schema.as_deref(), Some("public"));
    assert_eq!(table.name, "orders");
    assert_eq!(table.kind, TableKind::Table);
    assert_eq!(table.columns.len(), 1);
    assert!(table.indexes.is_empty());
    assert_eq!(table.note.as_deref(), Some("Checkout rows."));
    assert_eq!(table.note_source, NoteSource::Database);
    assert!(table.column_notes.is_empty());
    assert!(warnings.is_empty());
}

#[test]
fn a_foreign_key_failure_is_reported_rather_than_hidden() {
    let (table, warnings) =
        assemble_table("", info("orders", "VIEW", Some("   ")), vec![], Ok(vec![]), Err("denied".to_string()));
    assert_eq!(table.schema, None);
    assert_eq!(table.kind, TableKind::View);
    assert_eq!(table.note, None);
    assert_eq!(table.note_source, NoteSource::Absent);
    assert!(table.foreign_keys.is_empty());
    match &warnings[..] {
        [SnapshotWarning::TableSkipped { table, reason }] => {
            assert_eq!(table, ".orders");
            assert_eq!(reason, "foreign keys unavailable: denied");
        }
        other => panic!("unexpected warnings: {other:?}"),
    }
}

#[test]
fn skip_warnings_name_what_was_skipped() {
    assert_eq!(table_label("public", "orders"), "public.orders");
    match schema_unavailable("public", "boom".to_string()) {
        SnapshotWarning::TableSkipped { table, reason } => {
            assert_eq!(table, "public.*");
            assert_eq!(reason, "boom");
        }
        other => panic!("unexpected: {other:?}"),
    }
    match columns_unavailable("public", "orders", "no".to_string()) {
        SnapshotWarning::TableSkipped { table, reason } => {
            assert_eq!(table, "public.orders");
            assert_eq!(reason, "no");
        }
        other => panic!("unexpected: {other:?}"),
    }
    match cancellation_warning("orders", false) {
        SnapshotWarning::TableSkipped { table, reason } => {
            assert_eq!(table, "orders");
            assert_eq!(reason, "cancelled");
        }
        other => panic!("unexpected: {other:?}"),
    }
    match cancellation_warning("orders", true) {
        SnapshotWarning::TableSkipped { reason, .. } => assert_eq!(reason, "collection cancelled"),
        other => panic!("unexpected: {other:?}"),
    }
}

#[test]
fn a_per_table_failure_does_not_abort_the_run() {
    let outcomes: Vec<TableOutcome> = vec![
        Ok((doc_table(Some("public"), "b"), vec![])),
        Err(SnapshotWarning::TableSkipped { table: "public.c".to_string(), reason: "denied".to_string() }),
        Ok((
            doc_table(Some("public"), "a"),
            vec![SnapshotWarning::TableSkipped { table: "public.a".to_string(), reason: "fk".to_string() }],
        )),
    ];
    let mut warnings = vec![SnapshotWarning::CommentsUnsupported { engine: "Sqlite".to_string() }];
    let tables = merge_outcomes(outcomes, &mut warnings);
    let names: Vec<&str> = tables.iter().map(|t| t.name.as_str()).collect();
    assert_eq!(names, vec!["b", "a"]);
    assert_eq!(warnings.len(), 3);
    assert!(matches!(&warnings[0], SnapshotWarning::CommentsUnsupported { .. }));
    assert!(matches!(&warnings[1], SnapshotWarning::TableSkipped { table, .. } if table == "public.c"));
    assert!(matches!(&warnings[2], SnapshotWarning::TableSkipped { table, .. } if table == "public.a"));
}

#[test]
fn tables_are_sorted_by_qualified_name() {
    let tables = vec![
        doc_table(Some("sales"), "orders"),
        doc_table(Some("public"), "users"),
        doc_table(None, "zeta"),
        doc_table(Some("public"), "orders"),
        doc_table(None, "Alpha"),
    ];
    let sorted = sort_tables(tables);
    let names: Vec<String> = sorted.iter().map(|t| t.qualified_name()).collect();
    assert_eq!(names, vec!["Alpha", "public.orders", "public.users", "sales.orders", "zeta"]);
}

#[test]
fn sorting_is_stable_for_equal_names() {
    let mut first = doc_table(Some("public"), "orders");
    first.note = Some("first".to_string());
    let mut second = doc_table(Some("public"), "orders");
    second.note = Some("second".to_string());
    let sorted = sort_tables(vec![first, doc_table(Some("a"), "b"), second]);
    assert_eq!(sorted[0].qualified_name(), "a.b");
    assert_eq!(sorted[1].note.as_deref(), Some("first"));
    assert_eq!(sorted[2].note.as_deref(), Some("second"));
}

#[test]
fn enums_are_synthesized_for_every_table_in_order() {
    let mut t1 = doc_table(Some("public"), "orders");
    let mut status = ColumnInfo { name: "status".to_string(), ..Default::default() };
    status.enum_values = Some(vec!["a".to_string()]);
    let mut kind = ColumnInfo { name: "kind".to_string(), ..Default::default() };
    kind.enum_values = Some(vec!["x".to_string(), "y".to_string()]);
    t1.columns = vec![status, ColumnInfo { name: "id".to_string(), ..Default::default() }, kind];
    let mut t2 = doc_table(None, "users");
    let mut role = ColumnInfo { name: "role".to_string(), ..Default::default() };
    role.enum_values = Some(vec!["admin".to_string()]);
    t2.columns = vec![role];
    let enums = synthesize_enums(&vec![t1, t2]);
    let names: Vec<&str> = enums.iter().map(|e| e.name.as_str()).collect();
    assert_eq!(names, vec!["orders_status", "orders_kind", "users_role"]);
    assert_eq!(enums[0].schema.as_deref(), Some("public"));
    assert_eq!(enums[2].schema, None);
    assert_eq!(enums[1].values, vec!["x", "y"]);
}

#[test]
fn the_project_reports_the_database_only_when_named() {
    assert_eq!(project_database(""), None);
    assert_eq!(project_database("shop").as_deref(), Some("shop"));
}

#[test]
fn a_request_names_the_project_after_the_connection_by_default() {
    let request = DocsSnapshotRequest {
        connection_id: "c1".to_string(),
        database: "shop".to_string(),
        schemas: vec!["public".to_string()],
        tables: vec!["orders".to_string()],
        project_name: None,
    };
    let options = request.to_options("Production");
    assert_eq!(options.project_name, "Production");
    assert_eq!(options.database, "shop");
    assert_eq!(options.schemas, vec!["public"]);
    assert_eq!(options.tables, vec!["orders"]);
    let named = DocsSnapshotRequest { project_name: Some("Ecommerce".to_string()), ..request };
    assert_eq!(named.to_options("Production").project_name, "Ecommerce");
}

#[test]
fn a_table_starts_only_with_a_slot_and_without_cancellation() {
    let progress = table_gate("public", "orders", 2, 5, false, false).expect("started");
    assert_eq!(progress.completed, 2);
    assert_eq!(progress.total, 5);
    assert_eq!(progress.current, "public.orders");
    match table_gate("public", "orders", 2, 5, true, true) {
        Err(SnapshotWarning::TableSkipped { table, reason }) => {
            assert_eq!(table, "orders");
            assert_eq!(reason, "collection cancelled");
        }
        other => panic!("unexpected: {other:?}"),
    }
    match table_gate("public", "orders", 2, 5, false, true) {
        Err(SnapshotWarning::TableSkipped { table, reason }) => {
            assert_eq!(table, "orders");
            assert_eq!(reason, "cancelled");
        }
        other => panic!("unexpected: {other:?}"),
    }
}

#[test]
fn unreadable_columns_skip_the_table() {
    let columns = accept_columns("public", "orders", Ok(vec![ColumnInfo { name: "id".to_string(), ..Default::default() }]))
        .expect("columns");
    assert_eq!(columns.len(), 1);
    assert_eq!(columns[0].name, "id");
    match accept_columns("public", "orders", Err("denied".to_string())) {
        Err(SnapshotWarning::TableSkipped { table, reason }) => {
            assert_eq!(table, "public.orders");
            assert_eq!(reason, "denied");
        }
        other => panic!("unexpected: {other:?}"),
    }
    let done = collection_done(7);
    assert_eq!((done.completed, done.total, done.current.as_str()), (7, 7, ""));
}

#[test]
fn a_finished_snapshot_holds_the_sorted_tables_their_enums_and_all_warnings() {
    let options = CollectOptions {
        database: "shop".to_string(),
        schemas: vec![],
        tables: vec![],
        project_name: "Ecommerce".to_string(),
    };
    let mut orders = doc_table(Some("public"), "orders");
    let mut status = ColumnInfo { name: "status".to_string(), ..Default::default() };
    status.enum_values = Some(vec!["new".to_string()]);
    orders.columns = vec![status];
    let outcomes: Vec<TableOutcome> = vec![
        Ok((orders, vec![SnapshotWarning::TableSkipped { table: "public.orders".to_string(), reason: "fk".to_string() }])),
        Err(SnapshotWarning::TableSkipped { table: "public.gone".to_string(), reason: "denied".to_string() }),
        Ok((doc_table(Some("public"), "accounts"), vec![])),
    ];
    let warnings = vec![SnapshotWarning::NoForeignKeyMetadata { engine: "Sqlite".to_string() }];
    let snapshot = finish_snapshot(
        &options,
        "Postgres".to_string(),
        &vec!["public".to_string(), String::new()],
        outcomes,
        warnings,
        "2026-01-01T00:00:00+00:00".to_string(),
    );
    assert_eq!(snapshot.format_version, 1);
    assert_eq!(snapshot.project.name, "Ecommerce");
    assert_eq!(snapshot.project.database_type, "Postgres");
    assert_eq!(snapshot.project.database.as_deref(), Some("shop"));
    assert_eq!(snapshot.project.schemas, vec!["public"]);
    assert_eq!(snapshot.project.generated_at, "2026-01-01T00:00:00+00:00");
    assert_eq!(snapshot.project.note, None);
    let names: Vec<String> = snapshot.tables.iter().map(|t| t.qualified_name()).collect();
    assert_eq!(names, vec!["public.accounts", "public.orders"]);
    assert_eq!(snapshot.enums.len(), 1);
    assert_eq!(snapshot.enums[0].name, "orders_status");
    assert_eq!(snapshot.warnings.len(), 3);
    assert!(matches!(&snapshot.warnings[0], SnapshotWarning::NoForeignKeyMetadata { .. }));
    assert!(matches!(&snapshot.warnings[1], SnapshotWarning::TableSkipped { reason, .. } if reason == "fk"));
    assert!(matches!(&snapshot.warnings[2], SnapshotWarning::TableSkipped { reason, .. } if reason == "denied"));
}

#[test]
fn a_snapshot_without_a_database_name_reports_none() {
    let options = CollectOptions {
        database: String::new(),
        schemas: vec![],
        tables: vec![],
        project_name: "p".to_string(),
    };
    let snapshot = finish_snapshot(&options, "Sqlite".to_string(), &vec![String::new()], vec![], vec![], "t".to_string());
    assert_eq!(snapshot.project.database, None);
    assert!(snapshot.project.schemas.is_empty());
    assert!(snapshot.tables.is_empty() && snapshot.enums.is_empty() && snapshot.warnings.is_empty());
}

#[test]
fn engines_are_named_as_their_variants() {
    assert_eq!(engine_name(DatabaseType::Postgres), "Postgres");
    assert_eq!(engine_name(DatabaseType::Mysql), "Mysql");
    assert_eq!(engine_name(DatabaseType::Sqlite), "Sqlite");
    assert_eq!(engine_name(DatabaseType::SqlServer), "SqlServer");
    assert_eq!(engine_name(DatabaseType::Oracle), "Oracle");
}

#[test]
fn every_table_of_a_snapshot_is_one_the_filter_selects() {
    let options = CollectOptions {
        database: "shop".to_string(),
        schemas: vec!["public".to_string(), "analytics".to_string()],
        tables: vec!["orders".to_string(), "analytics.daily_sales".to_string()],
        project_name: "Ecommerce".to_string(),
    };
    let mut outcomes: Vec<TableOutcome> = Vec::new();
    for schema in ["public", "analytics"] {
        let listed = vec![info("orders", "TABLE", None), info("users", "TABLE", None), info("daily_sales", "VIEW", None)];
        for target in options.select_tables(schema, listed) {
            outcomes.push(Ok(assemble_table(schema, target, vec![], Ok(vec![]), Ok(vec![]))));
        }
    }
    let snapshot = finish_snapshot(&options, "Postgres".to_string(), &options.schemas, outcomes, vec![], "t".to_string());
    let names: Vec<String> = snapshot.tables.iter().map(|t| t.qualified_name()).collect();
    assert_eq!(names, vec!["analytics.daily_sales", "analytics.orders", "public.orders"]);
    for table in &snapshot.tables {
        assert!(options.includes_table(table.schema.as_deref().unwrap_or(""), &table.name));
    }
}
