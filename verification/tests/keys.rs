use dbx_docs::keys::{column_key, fold_identifier, table_key};
use dbx_docs::model::DatabaseType;

#[test]
fn postgres_folds_to_lowercase() {
    assert_eq!(fold_identifier(DatabaseType::Postgres, "Orders"), "orders");
    assert_eq!(fold_identifier(DatabaseType::Postgres, "ORDERS"), "orders");
}

#[test]
fn mysql_folds_to_lowercase() {
    assert_eq!(fold_identifier(DatabaseType::Mysql, "Orders"), "orders");
}

#[test]
fn table_keys_are_qualified_when_a_schema_is_present() {
    assert_eq!(table_key(DatabaseType::Postgres, Some("Core"), "Orders"), "core.orders");
    assert_eq!(table_key(DatabaseType::Postgres, None, "Orders"), "orders");
    assert_eq!(table_key(DatabaseType::Postgres, Some(""), "Orders"), "orders");
}

#[test]
fn column_keys_extend_the_table_key() {
    assert_eq!(column_key(DatabaseType::Postgres, Some("core"), "orders", "Status"), "core.orders.status");
}

#[test]
fn folding_is_idempotent() {
    let once = table_key(DatabaseType::Postgres, Some("Core"), "Orders");
    let twice = table_key(DatabaseType::Postgres, Some(&once), "x");
    assert!(twice.starts_with("core.orders"), "got {twice}");
    assert_eq!(fold_identifier(DatabaseType::Postgres, &once), once);
}

#[test]
fn oracle_folds_to_uppercase() {
    assert_eq!(fold_identifier(DatabaseType::Oracle, "Orders"), "ORDERS");
    assert_eq!(table_key(DatabaseType::Oracle, Some("core"), "orders"), "CORE.ORDERS");
    assert_eq!(column_key(DatabaseType::Oracle, None, "orders", "id"), "ORDERS.ID");
}

#[test]
fn folding_follows_unicode_case_rules() {
    assert_eq!(fold_identifier(DatabaseType::Postgres, "ÄRGER"), "ärger");
    assert_eq!(fold_identifier(DatabaseType::Oracle, "straße"), "STRASSE");
}

#[test]
fn sqlite_and_sql_server_fold_to_lowercase() {
    assert_eq!(fold_identifier(DatabaseType::Sqlite, "Orders"), "orders");
    assert_eq!(fold_identifier(DatabaseType::SqlServer, "Orders"), "orders");
}

#[test]
fn a_folded_ascii_key_folds_to_itself() {
    let key = table_key(DatabaseType::Mysql, Some("Shop"), "Order_Items");
    assert_eq!(key, "shop.order_items");
    assert_eq!(fold_identifier(DatabaseType::Mysql, &key), key);
}
