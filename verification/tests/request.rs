use dbx_docs::model::DatabaseType;
use dbx_docs::request::{find_connection, ConnectionConfig};

fn config(id: &str, name: &str) -> ConnectionConfig {
    ConnectionConfig { id: id.to_string(), name: name.to_string(), db_type: DatabaseType::Postgres }
}

#[test]
fn the_first_connection_with_the_id_is_found() {
    let configs = vec![config("a", "first"), config("b", "second"), config("b", "third")];
    let found = find_connection(configs, "b").expect("found");
    assert_eq!(found.id, "b");
    assert_eq!(found.name, "second");
}

#[test]
fn an_unknown_connection_id_is_an_error_naming_it() {
    let configs = vec![config("a", "first")];
    match find_connection(configs, "zz") {
        Err(message) => assert_eq!(message, "Connection with id 'zz' not found"),
        Ok(found) => panic!("unexpected: {found:?}"),
    }
    assert!(find_connection(vec![], "a").is_err());
}
