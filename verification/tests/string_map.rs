use localhost_build::string_map::StringMap;

#[test]
pub fn a_map_keeps_the_order_in_which_keys_came() {
    let mut map: StringMap<u32> = StringMap::new();
    assert!(map.is_empty());
    assert_eq!(map.len(), 0);
    map.insert("b".to_string(), 1);
    map.insert("a".to_string(), 2);
    map.insert("b".to_string(), 3);
    assert_eq!(map.len(), 2);
    assert!(!map.is_empty());
    assert_eq!(map.key_at(0), "b");
    assert_eq!(map.value_at(0), &3);
    assert_eq!(map.key_at(1), "a");
    assert_eq!(map.value_at(1), &2);
    assert_eq!(map.get("a"), Some(&2));
    assert_eq!(map.get("c"), None);
    assert!(map.contains_key("b"));
    assert!(!map.contains_key(""));
}

#[test]
pub fn insert_if_absent_keeps_what_is_there() {
    let mut map: StringMap<String> = StringMap::new();
    map.insert_if_absent("a".to_string(), "1".to_string());
    map.insert_if_absent("a".to_string(), "2".to_string());
    map.insert_if_absent("".to_string(), "3".to_string());
    assert_eq!(map.get("a"), Some(&"1".to_string()));
    assert_eq!(map.get(""), Some(&"3".to_string()));
    assert_eq!(map.len(), 2);
    map.clear();
    assert!(map.is_empty());
    assert_eq!(map.get("a"), None);
}
