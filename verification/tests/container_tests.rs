//! Tests for the generic generational slot container, including
//! generational safety: a removed handle never resolves again, even
//! after its slot has been reused.

use slotmap_graph::{Container, SlotKey};
use slotmap_graph::storage::StorageKey;

#[test]
fn test_container_basic_operations() {
    let mut container: Container<i32> = Container::new();

    let key1 = container.insert(1);
    let key2 = container.insert(2);
    let key3 = container.insert(3);

    assert_eq!(container.len(), 3);
    assert!(!container.is_empty());

    assert_eq!(container.get(key1), Some(&1));
    assert_eq!(container.get(key2), Some(&2));
    assert_eq!(container.get(key3), Some(&3));

    if let Some(value) = container.get_mut(key2) {
        *value = 20;
    }
    assert_eq!(container.get(key2), Some(&20));

    assert!(container.contains(key1));
    assert!(!container.contains(SlotKey::default()));

    let removed = container.remove(key1);
    assert_eq!(removed, Some(1));
    assert!(!container.contains(key1));
    assert_eq!(container.len(), 2);

    container.clear();
    assert!(container.is_empty());
    assert_eq!(container.len(), 0);
}

#[test]
fn test_container_iterators() {
    let mut container: Container<i32> = Container::new();
    let keys: Vec<_> = (1..=5).map(|i| container.insert(i)).collect();
    assert_eq!(keys.len(), 5);

    let collected = container.iter();
    assert_eq!(collected.len(), 5);

    let key_count = container.keys().len();
    assert_eq!(key_count, 5);

    let value_sum: i32 = container.values().iter().map(|v| **v).sum();
    assert_eq!(value_sum, 15);
}

#[test]
fn test_container_with_capacity() {
    let container: Container<i32> = Container::with_capacity(100);
    assert!(container.is_empty());
}

#[test]
fn test_storage_key() {
    let key = SlotKey::default();
    let storage_key = StorageKey::new(key);

    assert_eq!(storage_key.key(), key);
}

#[test]
fn test_generational_safety_on_reuse() {
    // A handle returned by insert stops resolving after remove, even
    // when a later insert reuses the same slot index.
    let mut container: Container<&str> = Container::new();

    let first = container.insert("first");
    assert_eq!(container.get(first), Some(&"first"));

    assert_eq!(container.remove(first), Some("first"));
    assert_eq!(container.get(first), None);

    let second = container.insert("second");
    // The slot index is reused, but the generation moved on.
    assert_eq!(second.index, first.index);
    assert_ne!(second.generation, first.generation);

    // The stale handle still resolves to nothing; the new one works.
    assert_eq!(container.get(first), None);
    assert!(!container.contains(first));
    assert_eq!(container.get(second), Some(&"second"));
}

#[test]
fn test_generational_safety_across_clear() {
    let mut container: Container<u64> = Container::new();
    let a = container.insert(10);
    let b = container.insert(20);

    container.clear();
    assert_eq!(container.get(a), None);
    assert_eq!(container.get(b), None);

    let c = container.insert(30);
    assert_eq!(container.get(a), None);
    assert_eq!(container.get(b), None);
    assert_eq!(container.get(c), Some(&30));
}

#[test]
fn test_default_key_never_resolves() {
    let mut container: Container<u8> = Container::new();
    for i in 0..10 {
        container.insert(i);
    }
    assert_eq!(container.get(SlotKey::default()), None);
    assert!(!container.contains(SlotKey::default()));
}

#[test]
fn test_container_iter_in_slot_order() {
    let mut container: Container<char> = Container::new();
    let a = container.insert('a');
    let _b = container.insert('b');
    let c = container.insert('c');
    container.remove(a);

    let pairs = container.iter();
    assert_eq!(pairs.len(), 2);
    // Remaining entries come out in ascending slot order.
    assert!(pairs[0].0.index < pairs[1].0.index);
    assert_eq!(*pairs[1].1, 'c');
    assert_eq!(pairs[1].0, c);
}
