//! Tests for the identifier layer: vertex and edge ids over the shared
//! generational handle.

use std::collections::HashSet;
use slotmap_graph::id::IdExt;
use slotmap_graph::{Container, EdgeId, SlotKey, VertexId};

/// Distinct handles, made the way the stores make them: by inserting
/// into a container.
fn create_test_keys(count: usize) -> Vec<SlotKey> {
    let mut container: Container<usize> = Container::new();
    let mut keys = Vec::new();
    for i in 0..count {
        let key = container.insert(i);
        keys.push(key);
    }
    keys
}

#[test]
fn test_id_creation() {
    let key = SlotKey::default();
    let vertex_id = VertexId::new(key);
    let edge_id = EdgeId::new(key);

    assert_eq!(vertex_id.key(), key);
    assert_eq!(edge_id.key(), key);
}

#[test]
fn test_vertex_id_creation() {
    let key = SlotKey::default();
    let vertex_id = VertexId::new(key);

    assert_eq!(vertex_id.key(), key);
}

#[test]
fn test_vertex_id_equality() {
    let key = SlotKey::default();
    let id1 = VertexId::new(key);
    let id2 = VertexId::new(key);

    assert_eq!(id1, id2);
}

#[test]
fn test_vertex_id_clone() {
    let key = SlotKey::default();
    let vertex_id = VertexId::new(key);
    let cloned = vertex_id;

    assert_eq!(vertex_id, cloned);
}

#[test]
fn test_vertex_id_hash() {
    let key = SlotKey::default();
    let vertex_id = VertexId::new(key);

    let mut set = HashSet::new();
    set.insert(vertex_id);

    assert!(set.contains(&vertex_id));
}

#[test]
fn vertex_id_test_from_default_key() {
    let key = SlotKey::default();
    let vertex_id: VertexId = key.into();

    assert_eq!(vertex_id.key(), key);
}

#[test]
fn vertex_id_test_into_default_key() {
    let key = SlotKey::default();
    let vertex_id = VertexId::new(key);
    let converted_key: SlotKey = vertex_id.into();

    assert_eq!(converted_key, key);
}

#[test]
fn vertex_id_test_id_ext() {
    let keys = create_test_keys(1);
    let key = keys[0];
    let vertex_id = VertexId::new(key);

    assert!(vertex_id.is_valid());
    assert_eq!(vertex_id.as_usize(), key.index);
}

#[test]
fn vertex_id_test_default_id() {
    let default_id = VertexId::default();
    assert!(default_id.is_default());
}

#[test]
fn test_edge_id_creation() {
    let key = SlotKey::default();
    let edge_id = EdgeId::new(key);

    assert_eq!(edge_id.key(), key);
}

#[test]
fn test_edge_id_equality() {
    let key = SlotKey::default();
    let id1 = EdgeId::new(key);
    let id2 = EdgeId::new(key);

    assert_eq!(id1, id2);
}

#[test]
fn test_edge_id_clone() {
    let key = SlotKey::default();
    let edge_id = EdgeId::new(key);
    let cloned = edge_id;

    assert_eq!(edge_id, cloned);
}

#[test]
fn test_edge_id_hash() {
    let key = SlotKey::default();
    let edge_id = EdgeId::new(key);

    let mut set = HashSet::new();
    set.insert(edge_id);

    assert!(set.contains(&edge_id));
}

#[test]
fn edge_id_test_from_default_key() {
    let key = SlotKey::default();
    let edge_id: EdgeId = key.into();

    assert_eq!(edge_id.key(), key);
}

#[test]
fn edge_id_test_into_default_key() {
    let key = SlotKey::default();
    let edge_id = EdgeId::new(key);
    let converted_key: SlotKey = edge_id.into();

    assert_eq!(converted_key, key);
}

#[test]
fn edge_id_test_id_ext() {
    let keys = create_test_keys(1);
    let key = keys[0];
    let edge_id = EdgeId::new(key);

    assert!(edge_id.is_valid());
    assert_eq!(edge_id.as_usize(), key.index);
}

#[test]
fn edge_id_test_default_id() {
    let default_id = EdgeId::default();
    assert!(default_id.is_default());
}

#[test]
fn test_distinct_from_vertex_id() {
    let keys = create_test_keys(1);
    let key = keys[0];
    let vertex_id = VertexId::new(key);
    let edge_id = EdgeId::new(key);

    // VertexId and EdgeId are distinct types even over the same handle,
    // but both expose the same underlying key.
    assert_eq!(vertex_id.key(), edge_id.key());
    assert_eq!(vertex_id.key(), edge_id.key());
}
