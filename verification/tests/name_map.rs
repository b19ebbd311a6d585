use spcs_rust_utils::name_map::NameMap;

#[test]
fn a_new_map_is_empty() {
    let m: NameMap<u64> = NameMap::new();
    assert_eq!(m.len(), 0);
    assert!(!m.contains_key("a"));
    assert!(m.get("a").is_none());
    assert_eq!(m.position("a"), None);
}

#[test]
fn insert_appends_new_names_in_order() {
    let mut m: NameMap<u64> = NameMap::new();
    assert_eq!(m.insert("b".to_string(), 2), 0);
    assert_eq!(m.insert("a".to_string(), 1), 1);
    assert_eq!(m.insert("c".to_string(), 3), 2);
    assert_eq!(m.len(), 3);
    assert_eq!(m.key(0), "b");
    assert_eq!(m.key(1), "a");
    assert_eq!(m.key(2), "c");
    assert_eq!(*m.value(0), 2);
    assert_eq!(*m.value(1), 1);
    assert_eq!(*m.value(2), 3);
}

#[test]
fn insert_replaces_the_value_of_a_known_name_in_place() {
    let mut m: NameMap<u64> = NameMap::new();
    m.insert("a".to_string(), 1);
    m.insert("b".to_string(), 2);
    assert_eq!(m.insert("a".to_string(), 7), 0);
    assert_eq!(m.len(), 2);
    assert_eq!(m.key(0), "a");
    assert_eq!(m.get("a"), Some(&7));
    assert_eq!(m.get("b"), Some(&2));
}

#[test]
fn names_are_told_apart_by_all_their_characters() {
    let mut m: NameMap<u64> = NameMap::new();
    m.insert("counts".to_string(), 1);
    assert!(m.contains_key("counts"));
    assert!(!m.contains_key("count"));
    assert!(!m.contains_key("counts "));
    assert!(!m.contains_key("Counts"));
    assert_eq!(m.position("counts"), Some(0));
    assert_eq!(m.position("voltage"), None);
}

#[test]
fn replace_value_hands_back_what_was_there() {
    let mut m: NameMap<String> = NameMap::new();
    m.insert("a".to_string(), "one".to_string());
    m.insert("b".to_string(), "two".to_string());
    let previous = m.replace_value(1, "three".to_string());
    assert_eq!(previous, "two");
    assert_eq!(m.get("b"), Some(&"three".to_string()));
    assert_eq!(m.get("a"), Some(&"one".to_string()));
    assert_eq!(m.key(1), "b");
}

#[test]
fn into_entries_keeps_the_order() {
    let mut m: NameMap<u64> = NameMap::new();
    m.insert("x".to_string(), 10);
    m.insert("y".to_string(), 20);
    let entries = m.into_entries();
    assert_eq!(entries, vec![("x".to_string(), 10), ("y".to_string(), 20)]);
}

#[test]
fn a_clone_holds_the_same_entries() {
    let mut m: NameMap<u64> = NameMap::new();
    m.insert("x".to_string(), 10);
    m.insert("y".to_string(), 20);
    let copy = m.clone();
    assert_eq!(copy, m);
    assert_eq!(copy.get("y"), Some(&20));
}
