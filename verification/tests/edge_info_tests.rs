//! Tests for the edge connectivity record.

use std::collections::HashSet;
use slotmap_graph::{Container, EdgeId, EdgeInfo, SlotKey, VertexId};

fn create_test_keys(count: usize) -> Vec<SlotKey> {
    let mut container: Container<usize> = Container::new();
    let mut keys = Vec::new();
    for i in 0..count {
        let key = container.insert(i);
        keys.push(key);
    }
    keys
}

#[test]
fn test_edge_info_creation() {
    let edge_id = EdgeId::new(SlotKey::default());
    let from = VertexId::new(SlotKey::default());
    let to = VertexId::new(SlotKey::default());

    let edge_info = EdgeInfo::new(edge_id, from, to);

    assert_eq!(edge_info.edge_id(), edge_id);
    assert_eq!(edge_info.from(), from);
    assert_eq!(edge_info.to(), to);
}

#[test]
fn test_edge_info_connects() {
    let keys = create_test_keys(3);
    let vertex_a = VertexId::new(keys[0]);
    let vertex_b = VertexId::new(keys[1]);
    let vertex_c = VertexId::new(keys[2]);

    let edge_info = EdgeInfo::new(EdgeId::default(), vertex_a, vertex_b);

    assert!(edge_info.connects(vertex_a, vertex_b));
    assert!(!edge_info.connects(vertex_b, vertex_a));
    assert!(!edge_info.connects(vertex_a, vertex_c));
}

#[test]
fn test_edge_info_involves() {
    let keys = create_test_keys(3);
    let vertex_a = VertexId::new(keys[0]);
    let vertex_b = VertexId::new(keys[1]);
    let vertex_c = VertexId::new(keys[2]);

    let edge_info = EdgeInfo::new(EdgeId::default(), vertex_a, vertex_b);

    assert!(edge_info.involves(vertex_a));
    assert!(edge_info.involves(vertex_b));
    assert!(!edge_info.involves(vertex_c));
}

#[test]
fn test_edge_info_reverse() {
    let keys = create_test_keys(2);
    let vertex_a = VertexId::new(keys[0]);
    let vertex_b = VertexId::new(keys[1]);
    let edge_id = EdgeId::default();

    let edge_info = EdgeInfo::new(edge_id, vertex_a, vertex_b);
    let reversed = edge_info.reverse();

    assert_eq!(reversed.from(), vertex_b);
    assert_eq!(reversed.to(), vertex_a);
    assert_eq!(reversed.edge_id(), edge_id);
}

#[test]
fn test_edge_info_endpoints() {
    let keys = create_test_keys(2);
    let vertex_a = VertexId::new(keys[0]);
    let vertex_b = VertexId::new(keys[1]);

    let edge_info = EdgeInfo::new(EdgeId::default(), vertex_a, vertex_b);
    let (from, to) = edge_info.endpoints();

    assert_eq!(from, vertex_a);
    assert_eq!(to, vertex_b);
}

#[test]
fn test_edge_info_sorted_endpoints() {
    let keys = create_test_keys(3);
    let vertex_a = VertexId::new(keys[0]);
    let vertex_b = VertexId::new(keys[1]);
    let vertex_c = VertexId::new(keys[2]);

    let edge_info1 = EdgeInfo::new(EdgeId::default(), vertex_a, vertex_b);
    let (min1, max1) = edge_info1.sorted_endpoints();
    assert!((min1 == vertex_a && max1 == vertex_b) || (min1 == vertex_b && max1 == vertex_a));

    let edge_info2 = EdgeInfo::new(EdgeId::default(), vertex_c, vertex_a);
    let (min2, max2) = edge_info2.sorted_endpoints();
    assert!((min2 == vertex_a && max2 == vertex_c) || (min2 == vertex_c && max2 == vertex_a));
}

#[test]
fn test_edge_info_equality() {
    let keys = create_test_keys(3);
    let edge_id = EdgeId::new(keys[0]);
    let from = VertexId::new(keys[1]);
    let to = VertexId::new(keys[2]);

    let edge_info1 = EdgeInfo::new(edge_id, from, to);
    let edge_info2 = EdgeInfo::new(edge_id, from, to);
    let edge_info3 = EdgeInfo::new(edge_id, to, from);

    assert_eq!(edge_info1, edge_info2);
    assert_ne!(edge_info1, edge_info3);
}

#[test]
fn test_edge_info_hash() {
    let keys = create_test_keys(3);
    let edge_id = EdgeId::new(keys[0]);
    let from = VertexId::new(keys[1]);
    let to = VertexId::new(keys[2]);

    let edge_info = EdgeInfo::new(edge_id, from, to);
    let mut set = HashSet::new();
    set.insert(edge_info);

    assert!(set.contains(&edge_info));
}
