use floorplan::maps::ElemMap;
use floorplan::maps::StrMap;

#[test]
fn insert_and_get() {
    let m = StrMap::new().insert("unitA".to_string(), "floor-1".to_string());
    assert_eq!(m.get("unitA"), Some("floor-1".to_string()));
    assert_eq!(m.get("unitB"), None);
    assert_eq!(m.len(), 1);
    assert!(m.contains_key("unitA"));
}

#[test]
fn later_writes_win() {
    let m = StrMap::new()
        .insert("unitA".to_string(), "floor-1".to_string())
        .insert("unitA".to_string(), "floor-2".to_string());
    assert_eq!(m.len(), 1);
    assert_eq!(m.get("unitA"), Some("floor-2".to_string()));
}

#[test]
fn duplicate_is_equal() {
    let m = StrMap::new()
        .insert("a".to_string(), "1".to_string())
        .insert("b".to_string(), "2".to_string());
    let d = m.duplicate();
    assert_eq!(d, m);
    assert_eq!(d.get("b"), Some("2".to_string()));
}

#[test]
fn keys_enumerate_the_map() {
    let m = StrMap::new()
        .insert("a".to_string(), "1".to_string())
        .insert("b".to_string(), "2".to_string());
    let mut keys: Vec<String> = (0..m.len()).map(|i| m.key_at(i)).collect();
    keys.sort();
    assert_eq!(keys, vec!["a".to_string(), "b".to_string()]);
}

#[test]
fn element_index_records_associations() {
    let m = ElemMap::new()
        .insert("floor-1_unitA".to_string(), "unitA".to_string(), 3, 28)
        .insert("floor-1_unitA".to_string(), "floor-1".to_string(), 3, 28);
    assert_eq!(m.len(), 2);
    assert!(m.contains("floor-1_unitA", "unitA", 3, 28));
    assert!(m.contains("floor-1_unitA", "floor-1", 3, 28));
    assert!(!m.contains("floor-1_unitA", "unitA", 3, 29));
}

#[test]
fn element_index_keeps_one_entry_per_key() {
    let m = ElemMap::new()
        .insert("r".to_string(), "c".to_string(), 0, 5)
        .insert("r".to_string(), "c".to_string(), 0, 5);
    assert_eq!(m.len(), 1);
}

#[test]
fn element_index_duplicate_is_equal() {
    let m = ElemMap::new().insert("r".to_string(), "c".to_string(), 0, 5);
    let d = m.duplicate();
    assert_eq!(d, m);
    assert!(d.contains("r", "c", 0, 5));
}
