use labui::strmap::{str_eq_exec, str_less_exec, StrMap};

#[test]
fn string_order_is_code_point_order() {
    assert!(str_less_exec("", "a"));
    assert!(str_less_exec("a", "b"));
    assert!(str_less_exec("ab", "b"));
    assert!(str_less_exec("a", "ab"));
    assert!(!str_less_exec("b", "ab"));
    assert!(!str_less_exec("a", "a"));
    assert!(str_less_exec(".dark", ":root"));
    assert!(str_less_exec(".dark", ".dark.ic"));
    assert!(str_less_exec("Z", "a"));
    assert!(str_eq_exec("é", "é"));
    assert!(!str_eq_exec("é", "e"));
}

#[test]
fn insert_keeps_keys_sorted_and_replaces() {
    let mut m: StrMap<String> = StrMap::new();
    m.insert("b".to_string(), "1".to_string());
    m.insert("a".to_string(), "2".to_string());
    m.insert("c".to_string(), "3".to_string());
    m.insert("b".to_string(), "4".to_string());
    assert_eq!(m.len(), 3);
    assert_eq!(m.key_at(0), "a");
    assert_eq!(m.key_at(1), "b");
    assert_eq!(m.key_at(2), "c");
    assert_eq!(m.get("b"), Some(&"4".to_string()));
    assert_eq!(m.get("d"), None);
    assert_eq!(m.find("b"), Ok(1));
    assert_eq!(m.find("bb"), Err(2));
    assert_eq!(m.find(""), Err(0));
}

#[test]
fn replace_value_hands_back_the_old_value() {
    let mut m: StrMap<String> = StrMap::new();
    m.insert("k".to_string(), "old".to_string());
    let prev = m.replace_value_at(0, "new".to_string());
    assert_eq!(prev, "old");
    assert_eq!(m.value_at(0), "new");
    let (k, v) = m.entry_at(0);
    assert_eq!((k, v.as_str()), ("k", "new"));
}
