//! Tests for the ordered multimap index: interval queries with every
//! combination of bounds, in ascending key order.

use slotmap_graph::index::range::{EdgeRangeIndex, KeyBound, VertexRangeIndex};
use slotmap_graph::{EdgeId, RangeIndex, SlotKey, VertexId};

fn vid(index: usize, generation: u64) -> VertexId {
    VertexId::new(SlotKey { index, generation })
}

#[test]
fn test_basic_range_operations() {
    let mut index: VertexRangeIndex<u32> = RangeIndex::new();

    let _id1 = VertexId::new(SlotKey::default());
    let _id2 = VertexId::new(SlotKey::default());

    for i in 10..20 {
        let id = VertexId::new(SlotKey::default());
        index.insert(i, id);
    }

    let single = index.get(&15);
    assert_eq!(single.len(), 1);

    let range_12_17 = index.range(&KeyBound::Included(12), &KeyBound::Included(17));
    assert_eq!(range_12_17.len(), 6); // 12, 13, 14, 15, 16, 17

    let exclusive_range = index.range(&KeyBound::Included(13), &KeyBound::Excluded(17));
    assert_eq!(exclusive_range.len(), 4); // 13, 14, 15, 16 (all the same id)
}

#[test]
fn test_boundary_operations() {
    let mut index: VertexRangeIndex<u32> = RangeIndex::new();

    for i in 20..30 {
        let id = VertexId::new(SlotKey::default());
        index.insert(i, id);
    }

    let from_25 = index.from(&25);
    assert_eq!(from_25.len(), 5); // 25, 26, 27, 28, 29

    let to_25 = index.to(&25);
    assert_eq!(to_25.len(), 6); // 20, 21, 22, 23, 24, 25

    let after_25 = index.after(&25);
    assert_eq!(after_25.len(), 4); // 26, 27, 28, 29

    let before_25 = index.before(&25);
    assert_eq!(before_25.len(), 5); // 20, 21, 22, 23, 24
}

#[test]
fn test_string_keys() {
    let mut index: VertexRangeIndex<String> = RangeIndex::new();

    let id1 = VertexId::new(SlotKey::default());
    let id2 = VertexId::new(SlotKey::default());

    index.insert("alice".to_string(), id1);
    index.insert("bob".to_string(), id2);
    index.insert("charlie".to_string(), id1);

    let a_to_b = index.range(
        &KeyBound::Included("a".to_string()),
        &KeyBound::Excluded("c".to_string()),
    );
    assert_eq!(a_to_b.len(), 2); // alice, bob

    let from_b = index.from(&"b".to_string());
    assert_eq!(from_b.len(), 2); // bob, charlie
}

#[test]
fn range_test_duplicate_prevention() {
    let mut index: VertexRangeIndex<i32> = RangeIndex::new();

    let id1 = VertexId::new(SlotKey::default());

    assert!(index.insert(25, id1));
    assert!(!index.insert(25, id1));
    assert!(!index.insert(25, id1));

    let results = index.get(&25);
    assert_eq!(results.len(), 1);
    assert_eq!(results[0], id1);
}

#[test]
fn test_range_bounds() {
    let mut index: VertexRangeIndex<u32> = RangeIndex::new();

    assert!(index.range_bounds().is_none());

    index.insert(30, VertexId::new(SlotKey::default()));
    index.insert(10, VertexId::new(SlotKey::default()));
    index.insert(20, VertexId::new(SlotKey::default()));

    let (min, max) = index.range_bounds().unwrap();
    assert_eq!(*min, 10);
    assert_eq!(*max, 30);
}

#[test]
fn range_test_edge_index() {
    let mut index: EdgeRangeIndex<i64> = RangeIndex::new();

    let edge1 = EdgeId::new(SlotKey::default());
    let edge2 = EdgeId::new(SlotKey::default());

    index.insert(1000, edge1);
    index.insert(2000, edge2);

    let expensive_edges = index.from(&1500);
    assert_eq!(expensive_edges.len(), 1);
}

#[test]
fn test_complex_boundaries() {
    let mut index: VertexRangeIndex<u32> = RangeIndex::new();

    for i in 0..100 {
        if i % 10 == 0 {
            let id = VertexId::new(SlotKey::default());
            index.insert(i, id);
        }
    }

    let unbounded = index.range(&KeyBound::Unbounded, &KeyBound::Unbounded);
    assert_eq!(unbounded.len(), 10);

    let start_unbounded = index.range(&KeyBound::Unbounded, &KeyBound::Included(50));
    assert_eq!(start_unbounded.len(), 6); // 0, 10, 20, 30, 40, 50

    let end_unbounded = index.range(&KeyBound::Included(20), &KeyBound::Unbounded);
    assert_eq!(end_unbounded.len(), 8); // 20, 30, 40, 50, 60, 70, 80, 90
}

#[test]
fn test_range_interval_exact_contents() {
    // Multiples of 10 from 0 to 90; interval queries return exactly the
    // expected key groups, in ascending key order.
    let mut index: VertexRangeIndex<u32> = RangeIndex::new();
    for i in 0..100u32 {
        if i % 10 == 0 {
            index.insert(i, vid(i as usize, 1));
        }
    }

    let closed = index.range(&KeyBound::Included(20), &KeyBound::Included(50));
    let closed_keys: Vec<usize> = closed.iter().map(|id| id.key().index).collect();
    assert_eq!(closed_keys, vec![20, 30, 40, 50]);

    let half_open = index.range(&KeyBound::Included(20), &KeyBound::Excluded(50));
    let half_open_keys: Vec<usize> = half_open.iter().map(|id| id.key().index).collect();
    assert_eq!(half_open_keys, vec![20, 30, 40]);

    let before = index.before(&50);
    let before_keys: Vec<usize> = before.iter().map(|id| id.key().index).collect();
    assert_eq!(before_keys, vec![0, 10, 20, 30, 40]);

    let after = index.after(&50);
    let after_keys: Vec<usize> = after.iter().map(|id| id.key().index).collect();
    assert_eq!(after_keys, vec![60, 70, 80, 90]);
}

#[test]
fn test_empty_key_cleanup_range() {
    // After removing the last value under a key, the key is gone.
    let mut index: VertexRangeIndex<i64> = RangeIndex::new();
    let a = vid(0, 1);
    let b = vid(1, 1);

    index.insert(42, a);
    index.insert(42, b);
    assert!(index.contains_key(&42));

    assert!(index.remove(&42, &a));
    assert!(index.contains_key(&42));
    assert!(index.remove(&42, &b));
    assert!(!index.contains_key(&42));
    assert_eq!(index.keys_len(), 0);
    assert!(!index.remove(&42, &a));
}

#[test]
fn test_range_index_counters_and_clear() {
    let mut index: VertexRangeIndex<i64> = RangeIndex::new();
    index.insert(2, vid(0, 1));
    index.insert(1, vid(1, 1));
    index.insert(1, vid(2, 1));

    assert_eq!(index.keys_len(), 2);
    assert_eq!(index.total_values_len(), 3);
    assert_eq!(index.len_of(&1), 2);
    assert!(index.contains(&1, &vid(1, 1)));
    assert!(!index.contains(&1, &vid(0, 1)));

    let keys = index.keys();
    assert_eq!(*keys[0], 1);
    assert_eq!(*keys[1], 2);

    let groups = index.iter();
    assert_eq!(groups.len(), 2);

    index.clear();
    assert!(index.is_empty());
    assert_eq!(index.total_values_len(), 0);
}
