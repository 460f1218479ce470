use dbx_docs::name_map::NameMap;

#[test]
fn a_name_map_keeps_one_value_per_key() {
    let mut map: NameMap<u32> = NameMap::new();
    assert!(map.is_empty());
    map.insert("orders".to_string(), 1);
    map.insert("users".to_string(), 2);
    map.insert("orders".to_string(), 3);
    assert_eq!(map.len(), 2);
    assert_eq!(map.get("orders"), Some(&3));
    assert_eq!(map.get("users"), Some(&2));
    assert_eq!(map.get("Orders"), None);
    let keys: Vec<&str> = map.entries().iter().map(|(k, _)| k.as_str()).collect();
    assert_eq!(keys, vec!["orders", "users"]);
}
