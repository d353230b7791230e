use symbiosis::strmap::{compare_keys, KeyOrder, StrMap};

#[test]
fn keys_compare_like_strings() {
    assert_eq!(compare_keys("a", "b"), KeyOrder::Less);
    assert_eq!(compare_keys("ab", "a"), KeyOrder::Greater);
    assert_eq!(compare_keys("SC", "SC"), KeyOrder::Equal);
    assert_eq!(compare_keys("Z", "a"), KeyOrder::Less);
    assert_eq!(compare_keys("", "a"), KeyOrder::Less);
}

#[test]
fn insert_keeps_key_order_and_replaces() {
    let mut m = StrMap::new();
    assert_eq!(m.insert("b".to_string(), 2), None);
    assert_eq!(m.insert("a".to_string(), 1), None);
    assert_eq!(m.insert("c".to_string(), 3), None);
    assert_eq!(m.insert("b".to_string(), 20), Some(2));
    let keys: Vec<&str> = m.entries.iter().map(|(k, _)| k.as_str()).collect();
    assert_eq!(keys, ["a", "b", "c"]);
    assert_eq!(m.get("b"), Some(&20));
    assert_eq!(m.len(), 3);
    assert!(m.contains_key("c"));
    assert!(!m.contains_key("d"));
}

#[test]
fn remove_and_extend() {
    let mut m = StrMap::new();
    m.insert("x".to_string(), 1);
    m.insert("y".to_string(), 2);
    assert_eq!(m.remove("x"), Some(1));
    assert_eq!(m.remove("x"), None);
    let mut other = StrMap::new();
    other.insert("y".to_string(), 5);
    other.insert("z".to_string(), 6);
    m.extend(other);
    assert_eq!(m.get("y"), Some(&5));
    assert_eq!(m.get("z"), Some(&6));
    assert!(!m.is_empty());
    assert!(StrMap::<u8>::new().is_empty());
}
