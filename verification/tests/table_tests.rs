use iot_pipeline::table::Table;

#[test]
fn table_insert_then_get_reads_back() {
    let mut t: Table<String, u64> = Table::new();
    assert!(t.insert("edge-1".to_string(), 10));
    assert!(t.insert("edge-2".to_string(), 20));
    assert_eq!(t.get(&"edge-1".to_string()), Some(&10));
    assert_eq!(t.get(&"edge-2".to_string()), Some(&20));
    assert_eq!(t.get(&"edge-3".to_string()), None);
    assert_eq!(t.len(), 2);
}

#[test]
fn table_reinsert_keeps_position_and_replaces_value() {
    let mut t: Table<String, u64> = Table::new();
    t.insert("a".to_string(), 1);
    t.insert("b".to_string(), 2);
    assert!(!t.insert("a".to_string(), 3));
    assert_eq!(t.len(), 2);
    assert_eq!(t.key_at(0), "a");
    assert_eq!(*t.value_at(0), 3);
    assert_eq!(t.key_at(1), "b");
    assert_eq!(t.find(&"b".to_string()), Some(1));
    assert!(t.contains_key(&"a".to_string()));
    assert!(!t.contains_key(&"c".to_string()));
}

#[test]
fn table_replace_at_hands_back_old_value() {
    let mut t: Table<u32, u64> = Table::new();
    t.insert(7, 70);
    let prev = t.replace_at(0, 71);
    assert_eq!(prev, 70);
    assert_eq!(t.get(&7), Some(&71));
}
