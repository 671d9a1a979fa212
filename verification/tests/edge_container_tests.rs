//! Tests for the edge store and its adjacency queries.

use slotmap_graph::{Container, EdgeContainer, SlotKey, VertexId};

fn create_test_keys(count: usize) -> Vec<SlotKey> {
    let mut container: Container<usize> = Container::new();
    let mut keys = Vec::new();
    for i in 0..count {
        let key = container.insert(i);
        keys.push(key);
    }
    keys
}

#[test]
fn test_edge_container_basic_operations() {
    let mut edges = EdgeContainer::new();

    let from = VertexId::new(SlotKey::default());
    let to = VertexId::new(SlotKey::default());

    let edge_id = edges.insert("friendship", from, to);
    assert_eq!(edges.len(), 1);
    assert!(!edges.is_empty());

    assert_eq!(edges.get(edge_id), Some(&"friendship"));
    assert!(edges.get_connection(edge_id).is_some());

    if let Some(label) = edges.get_mut(edge_id) {
        *label = "best friendship";
    }
    assert_eq!(edges.get(edge_id), Some(&"best friendship"));

    assert!(edges.contains(edge_id));

    let removed = edges.remove(edge_id);
    assert!(removed.is_some());
    assert!(!edges.contains(edge_id));
    assert_eq!(edges.len(), 0);
}

#[test]
fn test_edge_container_connections() {
    let mut edges = EdgeContainer::new();

    let keys = create_test_keys(6);

    let alice = VertexId::new(keys[0]);
    let bob = VertexId::new(keys[1]);
    let charlie = VertexId::new(keys[2]);

    let _edge1 = edges.insert("friend1", alice, bob);
    let _edge2 = edges.insert("friend2", bob, charlie);
    let _edge3 = edges.insert("friend3", alice, charlie);

    let from_alice = edges.edges_from(alice);
    assert_eq!(from_alice.len(), 2);

    let to_charlie = edges.edges_to(charlie);
    assert_eq!(to_charlie.len(), 2);

    let involving_bob = edges.edges_involving(bob);
    assert_eq!(involving_bob.len(), 2);

    assert!(edges.has_edge_between(alice, bob));
    assert!(edges.has_edge_between(bob, charlie));
    assert!(!edges.has_edge_between(bob, alice));

    let alice_bob = edges.get_edge_between(alice, bob);
    assert!(alice_bob.is_some());
}

#[test]
fn test_edge_container_assigns_record_id() {
    // The store assigns the id inside the connectivity record: it always
    // names the id the edge was stored under.
    let mut edges = EdgeContainer::new();
    let keys = create_test_keys(2);
    let a = VertexId::new(keys[0]);
    let b = VertexId::new(keys[1]);

    let e = edges.insert(7u32, a, b);
    let record = edges.get_connection(e).unwrap();
    assert_eq!(record.edge_id(), e);
    assert_eq!(record.from(), a);
    assert_eq!(record.to(), b);

    let (payload, record) = edges.remove(e).unwrap();
    assert_eq!(payload, 7);
    assert_eq!(record.edge_id(), e);
}

#[test]
fn test_edge_container_iterators() {
    let mut edges = EdgeContainer::new();
    let keys = create_test_keys(2);
    let a = VertexId::new(keys[0]);
    let b = VertexId::new(keys[1]);

    let e1 = edges.insert("x", a, b);
    let _e2 = edges.insert("y", b, a);

    assert_eq!(edges.keys().len(), 2);
    assert_eq!(edges.values().len(), 2);
    assert_eq!(edges.iter().len(), 2);

    let triples = edges.iter_with_connections();
    assert_eq!(triples.len(), 2);
    assert_eq!(triples[0].0, e1);
    assert_eq!(*triples[0].1, "x");
    assert_eq!(triples[0].2.from(), a);

    edges.clear();
    assert!(edges.is_empty());
}

#[test]
fn test_edges_between_directed() {
    let mut edges = EdgeContainer::new();
    let keys = create_test_keys(2);
    let a = VertexId::new(keys[0]);
    let b = VertexId::new(keys[1]);

    let e1 = edges.insert(1u8, a, b);
    let e2 = edges.insert(2u8, a, b);
    let _back = edges.insert(3u8, b, a);

    let forward = edges.edges_between(a, b);
    assert_eq!(forward, vec![e1, e2]);

    let backward = edges.edges_between(b, a);
    assert_eq!(backward.len(), 1);
}
