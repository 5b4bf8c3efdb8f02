use sparse_storage::{EntityId, SparseSet};

#[test]
fn insert() {
    let mut array = SparseSet::default();
    let mut entity_id = EntityId::zero();
    entity_id.set_index(0);
    assert!(array.insert("0", entity_id).is_none());
    entity_id.set_index(1);
    assert!(array.insert("1", entity_id).is_none());
    assert_eq!(array.len(), 2);
    entity_id.set_index(0);
    assert_eq!(array.get(entity_id), Some(&"0"));
    entity_id.set_index(1);
    assert_eq!(array.get(entity_id), Some(&"1"));
    entity_id.set_index(5);
    assert!(array.insert("5", entity_id).is_none());
    assert_eq!(array.get_mut(entity_id), Some(&mut "5"));
    entity_id.set_index(4);
    assert_eq!(array.get(entity_id), None);
    entity_id.set_index(6);
    assert_eq!(array.get(entity_id), None);
    assert!(array.insert("6", entity_id).is_none());
    entity_id.set_index(5);
    assert_eq!(array.get(entity_id), Some(&"5"));
    entity_id.set_index(6);
    assert_eq!(array.get_mut(entity_id), Some(&mut "6"));
    entity_id.set_index(4);
    assert_eq!(array.get(entity_id), None);
}

#[test]
fn remove() {
    let mut array = SparseSet::default();
    let mut entity_id = EntityId::zero();
    entity_id.set_index(0);
    array.insert("0", entity_id);
    entity_id.set_index(5);
    array.insert("5", entity_id);
    entity_id.set_index(10);
    array.insert("10", entity_id);
    entity_id.set_index(0);
    assert_eq!(array.remove(entity_id), Some("0"));
    assert_eq!(array.get(entity_id), None);
    entity_id.set_index(5);
    assert_eq!(array.get(entity_id), Some(&"5"));
    entity_id.set_index(10);
    assert_eq!(array.get(entity_id), Some(&"10"));
    assert_eq!(array.remove(entity_id), Some("10"));
    entity_id.set_index(0);
    assert_eq!(array.get(entity_id), None);
    entity_id.set_index(5);
    assert_eq!(array.get(entity_id), Some(&"5"));
    entity_id.set_index(10);
    assert_eq!(array.get(entity_id), None);
    assert_eq!(array.len(), 1);
    entity_id.set_index(3);
    array.insert("3", entity_id);
    entity_id.set_index(10);
    array.insert("100", entity_id);
    entity_id.set_index(0);
    assert_eq!(array.get(entity_id), None);
    entity_id.set_index(3);
    assert_eq!(array.get(entity_id), Some(&"3"));
    entity_id.set_index(5);
    assert_eq!(array.get(entity_id), Some(&"5"));
    entity_id.set_index(10);
    assert_eq!(array.get(entity_id), Some(&"100"));
    entity_id.set_index(3);
    assert_eq!(array.remove(entity_id), Some("3"));
    entity_id.set_index(0);
    assert_eq!(array.get(entity_id), None);
    entity_id.set_index(3);
    assert_eq!(array.get(entity_id), None);
    entity_id.set_index(5);
    assert_eq!(array.get(entity_id), Some(&"5"));
    entity_id.set_index(10);
    assert_eq!(array.get(entity_id), Some(&"100"));
    assert_eq!(array.remove(entity_id), Some("100"));
    entity_id.set_index(0);
    assert_eq!(array.get(entity_id), None);
    entity_id.set_index(3);
    assert_eq!(array.get(entity_id), None);
    entity_id.set_index(5);
    assert_eq!(array.get(entity_id), Some(&"5"));
    entity_id.set_index(10);
    assert_eq!(array.get(entity_id), None);
    entity_id.set_index(5);
    assert_eq!(array.remove(entity_id), Some("5"));
    entity_id.set_index(0);
    assert_eq!(array.get(entity_id), None);
    entity_id.set_index(3);
    assert_eq!(array.get(entity_id), None);
    entity_id.set_index(5);
    assert_eq!(array.get(entity_id), None);
    entity_id.set_index(10);
    assert_eq!(array.get(entity_id), None);
    assert_eq!(array.len(), 0);
}

fn id(index: usize) -> EntityId {
    let mut e = EntityId::zero();
    e.set_index(index);
    e
}

#[test]
fn insert_sparse_indices_and_get() {
    let mut array = SparseSet::default();
    assert!(array.insert("0", id(0)).is_none());
    assert!(array.insert("1", id(1)).is_none());
    assert!(array.insert("5", id(5)).is_none());
    assert!(array.insert("6", id(6)).is_none());
    assert_eq!(array.len(), 4);
    assert_eq!(array.get(id(0)), Some(&"0"));
    assert_eq!(array.get(id(4)), None);
    assert_eq!(array.get(id(5)), Some(&"5"));
    assert_eq!(array.get(id(6)), Some(&"6"));
}

#[test]
fn remove_keeps_the_rest() {
    let mut array = SparseSet::default();
    array.insert("0", id(0));
    array.insert("1", id(1));
    array.insert("5", id(5));
    array.insert("6", id(6));
    assert_eq!(array.remove(id(0)), Some("0"));
    assert_eq!(array.get(id(0)), None);
    assert_eq!(array.get(id(5)), Some(&"5"));
    assert_eq!(array.len(), 3);
}

#[test]
fn remove_absent_changes_nothing() {
    let mut array = SparseSet::default();
    array.insert("0", id(0));
    array.insert("1", id(1));
    array.insert("5", id(5));
    array.insert("6", id(6));
    assert_eq!(array.remove(id(0)), Some("0"));
    assert_eq!(array.remove(id(10)), None);
    assert_eq!(array.len(), 3);
    assert_eq!(array.get(id(1)), Some(&"1"));
    assert_eq!(array.get(id(5)), Some(&"5"));
    assert_eq!(array.get(id(6)), Some(&"6"));
    assert_eq!(array.get(id(0)), None);
    assert!(!array.contains(id(10)));
}

#[test]
fn insert_overwrites_and_returns_previous() {
    let mut array = SparseSet::default();
    assert_eq!(array.insert("a", id(2)), None);
    assert_eq!(array.insert("b", id(2)), Some("a"));
    assert_eq!(array.len(), 1);
    assert_eq!(array.get(id(2)), Some(&"b"));
}

#[test]
fn contains_and_is_empty() {
    let mut array = SparseSet::default();
    assert!(array.is_empty());
    assert!(!array.contains(id(3)));
    array.insert("x", id(3));
    assert!(!array.is_empty());
    assert!(array.contains(id(3)));
    array.remove(id(3));
    assert!(!array.contains(id(3)));
    assert!(array.is_empty());
}

#[test]
fn clone_indices_snapshots_dense() {
    let mut array = SparseSet::default();
    array.insert("a", id(4));
    array.insert("b", id(1));
    let ids = array.clone_indices();
    assert_eq!(ids.len(), 2);
    assert_eq!(ids[0].index(), 4);
    assert_eq!(ids[1].index(), 1);
}

#[test]
fn unique_storage() {
    let mut array: SparseSet<&str> = SparseSet::default();
    assert!(!array.is_unique());
    array.insert_unique("only");
    assert!(array.is_unique());
    assert_eq!(array.len(), 0);
}

#[test]
fn window_lookup_matches_parent() {
    let mut array = SparseSet::default();
    array.insert("a", id(0));
    array.insert("b", id(7));
    let w = array.window();
    assert_eq!(w.len(), 2);
    assert!(!w.is_empty());
    assert!(w.contains(id(7)));
    assert!(!w.contains(id(3)));
    assert_eq!(w.get(id(7)), Some(&"b"));
    assert_eq!(w.get(id(3)), None);
    assert!(!w.is_unique());
}

#[test]
fn sort_orders_by_entity_index() {
    let mut array = SparseSet::default();
    array.insert("c", id(9));
    array.insert("a", id(2));
    array.insert("b", id(5));
    array.sort();
    let ids = array.clone_indices();
    assert_eq!(ids[0].index(), 2);
    assert_eq!(ids[1].index(), 5);
    assert_eq!(ids[2].index(), 9);
    assert_eq!(array.get(id(2)), Some(&"a"));
    assert_eq!(array.get(id(5)), Some(&"b"));
    assert_eq!(array.get(id(9)), Some(&"c"));
}
