use sparse_storage::{EntityId, SparseSet};

fn id(index: usize) -> EntityId {
    let mut e = EntityId::zero();
    e.set_index(index);
    e
}

#[test]
fn update_pack_insert_and_clear_inserted() {
    let mut array = SparseSet::default();
    array.update_pack();
    array.insert("a", id(0));
    array.insert("b", id(1));
    array.insert("c", id(2));
    assert_eq!(array.inserted().len(), 3);
    assert_eq!(array.modified().len(), 0);
    array.clear_inserted();
    assert_eq!(array.inserted().len(), 0);
    assert_eq!(array.modified().len(), 0);
    assert_eq!(array.get(id(0)), Some(&"a"));
    assert_eq!(array.get(id(1)), Some(&"b"));
    assert_eq!(array.get(id(2)), Some(&"c"));
}

#[test]
fn update_pack_get_mut_migrates_once() {
    let mut array = SparseSet::default();
    array.update_pack();
    array.insert("a", id(0));
    array.insert("b", id(1));
    array.insert("c", id(2));
    array.clear_inserted();
    assert_eq!(array.get_mut(id(1)), Some(&mut "b"));
    assert_eq!(array.modified().len(), 1);
    // the migrated entry sits at the end of the modified zone
    let ids = array.clone_indices();
    assert_eq!(ids[0].index(), 1);
    // a second mutable lookup does not grow the zone
    assert_eq!(array.get_mut(id(1)), Some(&mut "b"));
    assert_eq!(array.modified().len(), 1);
}

#[test]
fn update_pack_inserted_or_modified_window() {
    let mut array = SparseSet::default();
    array.update_pack();
    array.insert("a", id(0));
    array.insert("b", id(1));
    array.clear_inserted();
    array.get_mut(id(0));
    array.insert("c", id(2));
    assert_eq!(array.inserted().len(), 1);
    assert_eq!(array.modified().len(), 1);
    assert_eq!(array.inserted_or_modified().len(), 2);
    assert!(array.inserted().contains(id(2)));
    assert!(array.modified().contains(id(0)));
    assert!(!array.inserted_or_modified().contains(id(1)));
}

#[test]
fn update_pack_remove_logs_the_pair() {
    let mut array = SparseSet::default();
    array.update_pack();
    array.insert("a", id(0));
    array.insert("b", id(1));
    assert_eq!(array.remove(id(0)), Some("a"));
    let log = array.take_removed().unwrap();
    assert_eq!(log.len(), 1);
    assert_eq!(log[0].0.index(), 0);
    assert_eq!(log[0].1, "a");
    // the log was drained
    assert_eq!(array.take_removed().unwrap().len(), 0);
}

#[test]
fn take_removed_absent_without_update_pack() {
    let mut array = SparseSet::default();
    array.insert("a", id(0));
    assert!(array.take_removed().is_none());
    assert_eq!(array.remove(id(0)), Some("a"));
    assert!(array.take_removed().is_none());
}

#[test]
fn clear_modified_empties_only_that_zone() {
    let mut array = SparseSet::default();
    array.update_pack();
    array.insert("a", id(0));
    array.insert("b", id(1));
    array.clear_inserted();
    array.get_mut(id(0));
    array.insert("c", id(2));
    assert_eq!(array.inserted().len(), 1);
    assert_eq!(array.modified().len(), 1);
    array.clear_modified();
    assert_eq!(array.inserted().len(), 1);
    assert_eq!(array.modified().len(), 0);
    array.clear_inserted_and_modified();
    assert_eq!(array.inserted().len(), 0);
    assert_eq!(array.modified().len(), 0);
}

#[test]
fn tight_pack_and_remove() {
    let mut array = SparseSet::default();
    array.tight_pack(Vec::new());
    array.insert("x", id(3));
    array.insert("y", id(4));
    array.pack(id(3));
    array.pack(id(4));
    assert_eq!(array.pack_len(), 2);
    assert_eq!(array.remove(id(3)), Some("x"));
    assert_eq!(array.pack_len(), 1);
    assert!(array.contains(id(4)));
    assert!(!array.contains(id(3)));
    assert_eq!(array.len(), 1);
    assert_eq!(array.get(id(4)), Some(&"y"));
}

#[test]
fn pack_is_idempotent() {
    let mut array = SparseSet::default();
    array.tight_pack(Vec::new());
    array.insert("x", id(0));
    array.insert("y", id(1));
    array.pack(id(0));
    assert_eq!(array.pack_len(), 1);
    array.pack(id(0));
    assert_eq!(array.pack_len(), 1);
    assert_eq!(array.get(id(0)), Some(&"x"));
    assert_eq!(array.get(id(1)), Some(&"y"));
}

#[test]
fn unpack_shrinks_the_prefix() {
    let mut array = SparseSet::default();
    array.tight_pack(Vec::new());
    array.insert("x", id(0));
    array.insert("y", id(1));
    array.pack(id(0));
    array.pack(id(1));
    assert_eq!(array.pack_len(), 2);
    array.unpack(id(0));
    assert_eq!(array.pack_len(), 1);
    array.unpack(id(0));
    assert_eq!(array.pack_len(), 1);
    assert_eq!(array.get(id(0)), Some(&"x"));
    assert_eq!(array.get(id(1)), Some(&"y"));
}

#[test]
fn loose_pack_behaves_like_a_prefix() {
    let mut array = SparseSet::default();
    array.loose_pack(Vec::new(), Vec::new());
    array.insert("x", id(2));
    array.pack(id(2));
    assert_eq!(array.pack_len(), 1);
    assert_eq!(array.remove(id(2)), Some("x"));
    assert_eq!(array.pack_len(), 0);
}

#[test]
fn remove_pack_drops_the_mode() {
    let mut array = SparseSet::default();
    array.update_pack();
    array.insert("a", id(0));
    assert_eq!(array.inserted().len(), 1);
    array.remove_pack();
    assert_eq!(array.inserted().len(), 0);
    assert!(array.take_removed().is_none());
    assert_eq!(array.get(id(0)), Some(&"a"));
}

#[test]
fn update_pack_remove_from_inserted_zone() {
    let mut array = SparseSet::default();
    array.update_pack();
    array.insert("a", id(0));
    array.insert("b", id(1));
    array.insert("c", id(2));
    assert_eq!(array.inserted().len(), 3);
    assert_eq!(array.remove(id(1)), Some("b"));
    assert_eq!(array.inserted().len(), 2);
    assert!(array.inserted().contains(id(0)));
    assert!(array.inserted().contains(id(2)));
    let log = array.take_removed().unwrap();
    assert_eq!(log.len(), 1);
    assert_eq!(log[0].0.index(), 1);
    assert_eq!(log[0].1, "b");
}

#[test]
fn update_pack_remove_from_modified_zone() {
    let mut array = SparseSet::default();
    array.update_pack();
    array.insert("a", id(0));
    array.insert("b", id(1));
    array.insert("c", id(2));
    array.clear_inserted();
    array.get_mut(id(0));
    array.get_mut(id(2));
    assert_eq!(array.modified().len(), 2);
    assert_eq!(array.remove(id(0)), Some("a"));
    assert_eq!(array.modified().len(), 1);
    assert!(array.modified().contains(id(2)));
    assert_eq!(array.get(id(1)), Some(&"b"));
    assert_eq!(array.get(id(2)), Some(&"c"));
}

#[test]
fn window_mut_writes_through() {
    let mut array = SparseSet::default();
    array.insert("a", id(0));
    array.insert("b", id(3));
    {
        let mut w = array.window_mut();
        assert_eq!(w.len(), 2);
        assert!(w.contains(id(3)));
        let p = w.sparse[id(3).index()] - w.offset;
        w.data[p] = "c";
    }
    assert_eq!(array.get(id(3)), Some(&"c"));
    assert_eq!(array.get(id(0)), Some(&"a"));
}

#[test]
fn inserted_mut_covers_the_inserted_zone() {
    let mut array = SparseSet::default();
    array.update_pack();
    array.insert("a", id(0));
    array.insert("b", id(1));
    {
        let mut w = array.inserted_mut();
        assert_eq!(w.len(), 2);
        w.data[0] = "z";
    }
    assert_eq!(array.get(id(0)), Some(&"z"));
    let mut plain: SparseSet<&str> = SparseSet::default();
    plain.insert("x", id(0));
    assert!(plain.inserted_mut().is_empty());
    assert!(plain.modified_mut().is_empty());
    assert!(plain.inserted_or_modified_mut().is_empty());
}

#[test]
fn modified_mut_covers_the_modified_zone() {
    let mut array = SparseSet::default();
    array.update_pack();
    array.insert("a", id(0));
    array.insert("b", id(1));
    array.clear_inserted();
    array.get_mut(id(1));
    {
        let mut w = array.modified_mut();
        assert_eq!(w.len(), 1);
        assert!(w.contains(id(1)));
        w.data[0] = "y";
    }
    assert_eq!(array.get(id(1)), Some(&"y"));
    assert_eq!(array.get(id(0)), Some(&"a"));
    assert_eq!(array.inserted_or_modified_mut().len(), 1);
}

#[test]
fn view_add_entity_packs_under_a_tight_pack() {
    let mut array = SparseSet::default();
    array.tight_pack(Vec::new());
    array.view_add_entity("x", id(2));
    assert_eq!(array.pack_len(), 1);
    assert_eq!(array.get(id(2)), Some(&"x"));
    let mut plain = SparseSet::default();
    plain.view_add_entity("y", id(0));
    assert_eq!(plain.pack_len(), 0);
    assert_eq!(plain.get(id(0)), Some(&"y"));
}
