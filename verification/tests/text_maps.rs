use clickhouse_spans::text_map::TextMap;

#[test]
fn a_new_map_is_empty() {
    let map: TextMap<u32> = TextMap::new();
    assert_eq!(map.get("a"), None);
    assert!(map.entries().is_empty());
}

#[test]
fn a_second_insertion_replaces_the_first() {
    let mut map: TextMap<u32> = TextMap::new();
    map.insert("a".to_string(), 1);
    map.insert("b".to_string(), 2);
    map.insert("a".to_string(), 3);
    assert_eq!(map.get("a"), Some(&3));
    assert_eq!(map.get("b"), Some(&2));
    assert_eq!(map.into_entries(), vec![("a".to_string(), 3), ("b".to_string(), 2)]);
}

#[test]
fn a_clone_holds_the_same() {
    let mut map: TextMap<String> = TextMap::new();
    map.insert("a".to_string(), "1".to_string());
    let copy = map.clone();
    map.insert("a".to_string(), "2".to_string());
    assert_eq!(copy.get("a"), Some(&"1".to_string()));
    assert_eq!(map.get("a"), Some(&"2".to_string()));
}
