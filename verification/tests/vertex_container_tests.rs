//! Tests for the vertex store.

use slotmap_graph::{SlotKey, VertexContainer, VertexId};

#[test]
fn test_vertex_container_basic_operations() {
    let mut vertices = VertexContainer::new();

    let alice = vertices.insert("Alice");
    let bob = vertices.insert("Bob");

    assert_eq!(vertices.len(), 2);
    assert!(!vertices.is_empty());

    assert_eq!(vertices.get(alice), Some(&"Alice"));
    assert_eq!(vertices.get(bob), Some(&"Bob"));

    if let Some(name) = vertices.get_mut(alice) {
        *name = "Alice Smith";
    }
    assert_eq!(vertices.get(alice), Some(&"Alice Smith"));

    assert!(vertices.contains(alice));
    assert!(!vertices.contains(VertexId::new(SlotKey::default())));

    let removed = vertices.remove(alice);
    assert_eq!(removed, Some("Alice Smith"));
    assert!(!vertices.contains(alice));
    assert_eq!(vertices.len(), 1);

    vertices.clear();
    assert!(vertices.is_empty());
    assert_eq!(vertices.len(), 0);
}

#[test]
fn test_vertex_container_iterators() {
    let mut vertices = VertexContainer::new();
    let ids: Vec<_> = (1..=5).map(|i| vertices.insert(format!("Vertex{}", i))).collect();
    assert_eq!(ids.len(), 5);

    let collected = vertices.iter();
    assert_eq!(collected.len(), 5);

    let key_count = vertices.keys().len();
    assert_eq!(key_count, 5);

    let values: Vec<String> = vertices.values().iter().map(|v| (*v).clone()).collect();
    assert!(values.iter().any(|v| v.starts_with("Vertex")));
}

#[test]
fn test_vertex_container_stale_id() {
    let mut vertices = VertexContainer::new();
    let a = vertices.insert(1u32);
    vertices.remove(a);
    let b = vertices.insert(2u32);

    assert_eq!(vertices.get(a), None);
    assert_eq!(vertices.remove(a), None);
    assert_eq!(vertices.get(b), Some(&2));
    assert_eq!(vertices.len(), 1);
}
