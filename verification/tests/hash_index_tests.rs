//! Tests for the exact-match multimap index: de-duplicated insertion,
//! empty-key cleanup and the counters.

use slotmap_graph::index::hash::{EdgeHashIndex, VertexHashIndex};
use slotmap_graph::{HashIndex, SlotKey, VertexId};

#[test]
fn test_basic_operations() {
    let mut index: VertexHashIndex<String> = HashIndex::new();

    // Both ids are the default handle, so they are the same value.
    let id1 = VertexId::new(SlotKey::default());
    let id2 = VertexId::new(SlotKey::default());

    assert!(index.insert("engineer".to_string(), id1));
    assert!(!index.insert("engineer".to_string(), id2)); // duplicate, should return false
    assert!(index.insert("designer".to_string(), id1));

    let engineers = index.get(&"engineer".to_string());
    assert_eq!(engineers.len(), 1); // Only one unique id since id1 == id2

    let designers = index.get(&"designer".to_string());
    assert_eq!(designers.len(), 1);

    let managers = index.get(&"manager".to_string());
    assert_eq!(managers.len(), 0);
}

#[test]
fn hash_test_duplicate_prevention() {
    let mut index: VertexHashIndex<i32> = HashIndex::new();

    let id1 = VertexId::new(SlotKey::default());

    assert!(index.insert(1, id1));
    assert!(!index.insert(1, id1));
    assert!(!index.insert(1, id1));

    let results = index.get(&1);
    assert_eq!(results.len(), 1);
    assert_eq!(results[0], id1);
}

#[test]
fn test_remove_operations() {
    let mut index: VertexHashIndex<i32> = HashIndex::new();

    let id1 = VertexId::new(SlotKey::default());
    let id2 = VertexId::new(SlotKey::default());

    index.insert(1, id1);
    index.insert(1, id2); // duplicate, won't actually insert

    // Since id1 == id2, there's only one value actually inserted.
    assert!(index.remove(&1, &id1));
    assert!(!index.contains_key(&1)); // Key should be completely removed
}

#[test]
fn test_statistics() {
    let mut index: VertexHashIndex<i32> = HashIndex::new();

    let id1 = VertexId::new(SlotKey::default());
    let id2 = VertexId::new(SlotKey::default());

    assert!(index.is_empty());
    assert_eq!(index.keys_len(), 0);
    assert_eq!(index.total_values_len(), 0);

    index.insert(1, id1);
    index.insert(1, id2); // duplicate, won't insert
    index.insert(2, id1); // same id, different key

    assert!(!index.is_empty());
    assert_eq!(index.keys_len(), 2);
    assert_eq!(index.total_values_len(), 2);
    assert_eq!(index.len_of(&1), 1);
    assert_eq!(index.len_of(&2), 1);
    assert_eq!(index.len_of(&3), 0);
}

#[test]
fn hash_test_edge_index() {
    let mut index: EdgeHashIndex<String> = HashIndex::new();

    let edge1 = slotmap_graph::EdgeId::new(SlotKey::default());
    let edge2 = slotmap_graph::EdgeId::new(SlotKey::default());

    index.insert("friendship".to_string(), edge1);
    index.insert("follows".to_string(), edge2);

    assert_eq!(index.len_of(&"friendship".to_string()), 1);
    assert_eq!(index.len_of(&"follows".to_string()), 1);
}

/// Distinct vertex ids straight from the handle encoding.
fn vid(index: usize, generation: u64) -> VertexId {
    VertexId::new(SlotKey { index, generation })
}

#[test]
fn test_idempotent_insert_two_ids() {
    // Inserting the same pair twice reports true then false, and the
    // key holds one value, not two.
    let mut index: VertexHashIndex<u32> = HashIndex::new();
    let a = vid(0, 1);
    let b = vid(1, 1);

    assert!(index.insert(7, a));
    assert!(!index.insert(7, a));
    assert_eq!(index.len_of(&7), 1);

    // A different value under the same key does grow the set.
    assert!(index.insert(7, b));
    assert_eq!(index.len_of(&7), 2);
    assert!(!index.insert(7, b));
    assert_eq!(index.len_of(&7), 2);
}

#[test]
fn test_empty_key_cleanup_hash() {
    // After removing the last value under a key, the key is gone.
    let mut index: VertexHashIndex<u32> = HashIndex::new();
    let a = vid(0, 1);
    let b = vid(1, 1);

    index.insert(5, a);
    index.insert(5, b);
    assert!(index.contains_key(&5));

    assert!(index.remove(&5, &a));
    assert!(index.contains_key(&5));
    assert!(index.remove(&5, &b));
    assert!(!index.contains_key(&5));
    assert_eq!(index.keys_len(), 0);

    // Removing from a missing key reports false and changes nothing.
    assert!(!index.remove(&5, &a));
}

#[test]
fn test_remove_all_values() {
    let mut index: VertexHashIndex<u32> = HashIndex::new();
    let a = vid(0, 1);
    let b = vid(1, 1);

    index.insert(9, a);
    index.insert(9, b);

    let removed = index.remove_all(&9);
    assert!(removed.is_some());
    assert_eq!(removed.unwrap().len(), 2);
    assert!(!index.contains_key(&9));
    assert!(index.remove_all(&9).is_none());
}

#[test]
fn test_contains_pair() {
    let mut index: VertexHashIndex<u32> = HashIndex::new();
    let a = vid(0, 1);
    let b = vid(1, 1);

    index.insert(3, a);
    assert!(index.contains(&3, &a));
    assert!(!index.contains(&3, &b));
    assert!(!index.contains(&4, &a));
}

#[test]
fn test_hash_index_clear_and_iter() {
    let mut index: VertexHashIndex<u32> = HashIndex::new();
    index.insert(1, vid(0, 1));
    index.insert(2, vid(1, 1));
    index.insert(2, vid(2, 1));

    let groups = index.iter();
    assert_eq!(groups.len(), 2);
    let keys = index.keys();
    assert_eq!(keys.len(), 2);

    index.clear();
    assert!(index.is_empty());
    assert_eq!(index.total_values_len(), 0);
}
