use xnet_status::name_map::NameMap;

#[test]
fn insert_get_and_order() {
    let mut m: NameMap<u32> = NameMap::new();
    assert_eq!(m.len(), 0);
    m.insert("b".to_string(), 2);
    m.insert("a".to_string(), 1);
    m.insert("ab".to_string(), 3);
    m.insert("B".to_string(), 4);
    m.insert("b".to_string(), 5);
    assert_eq!(m.len(), 4);
    assert_eq!(m.get("b"), Some(&5));
    assert_eq!(m.get("a"), Some(&1));
    assert_eq!(m.get("c"), None);
    assert!(m.contains("ab"));
    let keys: Vec<String> = (0..m.len()).map(|i| m.entry(i).0.clone()).collect();
    let mut sorted = keys.clone();
    sorted.sort();
    assert_eq!(keys, sorted);
    assert_eq!(keys, vec!["B", "a", "ab", "b"]);
}
