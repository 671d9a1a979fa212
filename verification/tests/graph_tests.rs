//! Tests for the graph: structure, cascade deletion, degrees, directed
//! adjacency and mutation.

use slotmap_graph::SlotMapGraph;

#[derive(Debug, Clone)]
struct TestVertex {
    name: String,
    _value: i32,
}

#[derive(Debug, Clone)]
struct TestEdge {
    weight: f64,
}

#[derive(Debug, Clone)]
struct Person {
    name: String,
    age: u32,
}

#[derive(Debug, Clone)]
struct Friendship {
    years_known: u32,
}

#[test]
fn test_graph_basic_operations() {
    let mut graph = SlotMapGraph::<TestVertex, TestEdge>::new();

    let v1 = graph.add_vertex(TestVertex { name: "A".to_string(), _value: 1 });
    let v2 = graph.add_vertex(TestVertex { name: "B".to_string(), _value: 2 });
    let v3 = graph.add_vertex(TestVertex { name: "C".to_string(), _value: 3 });

    let e1 = graph.add_edge(v1, v2, TestEdge { weight: 1.5 });
    let _e2 = graph.add_edge(v2, v3, TestEdge { weight: 2.5 });
    let _e3 = graph.add_edge(v1, v3, TestEdge { weight: 3.5 });

    assert_eq!(graph.vertex(v1).unwrap().name, "A");
    assert_eq!(graph.vertex(v2).unwrap().name, "B");
    assert_eq!(graph.vertex(v3).unwrap().name, "C");

    let (weight, tail, head) = graph.edge(e1).unwrap();
    assert_eq!(weight.weight, 1.5);
    assert_eq!(tail, v1);
    assert_eq!(head, v2);

    assert_eq!(graph.out_degree(v1), 2);
    assert_eq!(graph.in_degree(v1), 0);
    assert_eq!(graph.out_degree(v2), 1);
    assert_eq!(graph.in_degree(v2), 1);
    assert_eq!(graph.out_degree(v3), 0);
    assert_eq!(graph.in_degree(v3), 2);

    assert!(graph.has_edge(v1, v2));
    assert!(!graph.has_edge(v2, v1));
    assert!(graph.has_edge(v1, v3));

    let vertices = graph.all_vertices();
    assert_eq!(vertices.len(), 3);
}

#[test]
fn test_edge_removal() {
    let mut graph = SlotMapGraph::<TestVertex, TestEdge>::new();

    let v1 = graph.add_vertex(TestVertex { name: "A".to_string(), _value: 1 });
    let v2 = graph.add_vertex(TestVertex { name: "B".to_string(), _value: 2 });

    let e1 = graph.add_edge(v1, v2, TestEdge { weight: 1.5 });
    assert!(graph.has_edge(v1, v2));

    let removed_edge = graph.remove_edge(e1);
    assert!(removed_edge.is_some());
    assert!(!graph.has_edge(v1, v2));
}

#[test]
fn test_vertex_removal() {
    let mut graph = SlotMapGraph::<TestVertex, TestEdge>::new();

    let v1 = graph.add_vertex(TestVertex { name: "A".to_string(), _value: 1 });
    let v2 = graph.add_vertex(TestVertex { name: "B".to_string(), _value: 2 });
    let v3 = graph.add_vertex(TestVertex { name: "C".to_string(), _value: 3 });

    let e1 = graph.add_edge(v1, v2, TestEdge { weight: 1.5 });
    let e2 = graph.add_edge(v1, v3, TestEdge { weight: 2.5 });

    // Removing v1 removes its incident edges too.
    let removed_vertex = graph.remove_vertex(v1);
    assert!(removed_vertex.is_some());
    assert_eq!(removed_vertex.unwrap().name, "A");

    assert!(!graph.contains_vertex(v1));
    assert!(!graph.contains_edge(e1));
    assert!(!graph.contains_edge(e2));

    assert!(graph.contains_vertex(v2));
    assert!(graph.contains_vertex(v3));
}

#[test]
fn test_complete_graph_workflow() {
    let mut graph = SlotMapGraph::<Person, Friendship>::new();

    let alice = graph.add_vertex(Person { name: "Alice".to_string(), age: 30 });
    let bob = graph.add_vertex(Person { name: "Bob".to_string(), age: 25 });
    let charlie = graph.add_vertex(Person { name: "Charlie".to_string(), age: 35 });

    let alice_bob = graph.add_edge(alice, bob, Friendship { years_known: 5 });
    let _bob_charlie = graph.add_edge(bob, charlie, Friendship { years_known: 10 });
    let _alice_charlie = graph.add_edge(alice, charlie, Friendship { years_known: 3 });

    assert_eq!(graph.vertex_count(), 3);
    assert_eq!(graph.edge_count(), 3);

    let alice_ref = graph.vertex(alice).unwrap();
    assert_eq!(alice_ref.name, "Alice");
    assert_eq!(alice_ref.age, 30);

    let (friendship, tail, head) = graph.edge(alice_bob).unwrap();
    assert_eq!(friendship.years_known, 5);
    assert_eq!(tail, alice);
    assert_eq!(head, bob);

    let alice_friends: Vec<String> = graph
        .outgoing_edges(alice)
        .iter()
        .filter_map(|edge_id| {
            let head = graph.edge_to(*edge_id).unwrap();
            graph.vertex(head).map(|v| v.name.clone())
        })
        .collect();
    assert!(alice_friends.contains(&"Bob".to_string()));
    assert!(alice_friends.contains(&"Charlie".to_string()));

    assert_eq!(graph.in_degree(bob), 1);
    assert_eq!(graph.out_degree(bob), 1);

    let people: Vec<String> = graph.all_vertices().iter().map(|(_, person)| person.name.clone()).collect();
    assert_eq!(people.len(), 3);
    assert!(people.contains(&"Alice".to_string()));
    assert!(people.contains(&"Bob".to_string()));
    assert!(people.contains(&"Charlie".to_string()));
}

#[test]
fn test_graph_clear() {
    let mut graph = SlotMapGraph::<Person, Friendship>::new();

    let v1 = graph.add_vertex(Person { name: "A".to_string(), age: 10 });
    let v2 = graph.add_vertex(Person { name: "B".to_string(), age: 20 });
    graph.add_edge(v1, v2, Friendship { years_known: 1 });

    assert_eq!(graph.vertex_count(), 2);
    assert_eq!(graph.edge_count(), 1);

    graph.clear();

    assert_eq!(graph.vertex_count(), 0);
    assert_eq!(graph.edge_count(), 0);
    assert!(graph.is_empty());
}

#[test]
fn test_edge_between_query() {
    let mut graph = SlotMapGraph::<Person, Friendship>::new();

    let v1 = graph.add_vertex(Person { name: "A".to_string(), age: 10 });
    let v2 = graph.add_vertex(Person { name: "B".to_string(), age: 20 });

    let _e1 = graph.add_edge(v1, v2, Friendship { years_known: 1 });
    let _e2 = graph.add_edge(v1, v2, Friendship { years_known: 5 });

    assert!(graph.has_edge(v1, v2));
    assert!(!graph.has_edge(v2, v1));

    let edges_between = graph.edges_between(v1, v2);
    assert_eq!(edges_between.len(), 2);
}

#[test]
fn test_mutable_operations() {
    let mut graph = SlotMapGraph::<Person, Friendship>::new();

    let v1 = graph.add_vertex(Person { name: "Alice".to_string(), age: 30 });
    let v2 = graph.add_vertex(Person { name: "Bob".to_string(), age: 25 });

    let e1 = graph.add_edge(v1, v2, Friendship { years_known: 5 });

    if let Some(person) = graph.vertex_mut(v1) {
        person.age = 31;
    }
    assert_eq!(graph.vertex(v1).unwrap().age, 31);

    if let Some(friendship) = graph.edge_mut(e1) {
        friendship.years_known = 6;
    }
    assert_eq!(graph.edge(e1).unwrap().0.years_known, 6);
}

#[test]
fn test_cascade_deletion_counts() {
    // Vertices A, B, C with edges A->B and A->C: removing A drops the
    // edge count by exactly 2 and leaves B and C in place.
    let mut graph = SlotMapGraph::<&str, &str>::new();
    let a = graph.add_vertex("A");
    let b = graph.add_vertex("B");
    let c = graph.add_vertex("C");

    graph.add_edge(a, b, "ab");
    graph.add_edge(a, c, "ac");

    let edges_before = graph.edge_count();
    graph.remove_vertex(a);

    assert_eq!(graph.edge_count(), edges_before - 2);
    assert!(!graph.contains_vertex(a));
    assert!(graph.contains_vertex(b));
    assert!(graph.contains_vertex(c));
}

#[test]
fn test_degree_accounting() {
    // Edges A->B, A->C, B->C give the expected out- and in-degrees.
    let mut graph = SlotMapGraph::<&str, ()>::new();
    let a = graph.add_vertex("A");
    let b = graph.add_vertex("B");
    let c = graph.add_vertex("C");

    graph.add_edge(a, b, ());
    graph.add_edge(a, c, ());
    graph.add_edge(b, c, ());

    assert_eq!(graph.out_degree(a), 2);
    assert_eq!(graph.in_degree(a), 0);
    assert_eq!(graph.out_degree(b), 1);
    assert_eq!(graph.in_degree(b), 1);
    assert_eq!(graph.out_degree(c), 0);
    assert_eq!(graph.in_degree(c), 2);
    assert_eq!(graph.degree(a), 2);
    assert_eq!(graph.degree(b), 2);
    assert_eq!(graph.degree(c), 2);
}

#[test]
fn test_directed_adjacency_asymmetry() {
    // With only A->B present, has_edge(A, B) holds and has_edge(B, A)
    // does not.
    let mut graph = SlotMapGraph::<u8, u8>::new();
    let a = graph.add_vertex(1);
    let b = graph.add_vertex(2);

    graph.add_edge(a, b, 0);

    assert!(graph.has_edge(a, b));
    assert!(!graph.has_edge(b, a));
}

#[test]
fn test_stale_vertex_id_after_reuse() {
    // A removed vertex id stays dead even after its slot is reused by a
    // new vertex.
    let mut graph = SlotMapGraph::<u32, ()>::new();
    let first = graph.add_vertex(1);
    graph.remove_vertex(first);
    let second = graph.add_vertex(2);

    assert_eq!(second.key().index, first.key().index);
    assert!(graph.vertex(first).is_none());
    assert!(graph.vertex(second).is_some());
    assert!(!graph.contains_vertex(first));
}

#[test]
fn test_graph_indexing_roundtrip() {
    // Properties indexed through the graph's facade are found by value
    // and disappear after an unindex.
    let mut graph = SlotMapGraph::<&str, ()>::new();
    let a = graph.add_vertex("a");
    let b = graph.add_vertex("b");

    graph.index_vertex_string(a, "red");
    graph.index_vertex_string(b, "red");
    graph.index_vertex_int(a, 7);

    assert_eq!(graph.vertex_query().query_string("red").len(), 2);
    assert_eq!(graph.vertex_query().query_int(7), vec![a]);
    assert_eq!(graph.vertex_query().range_int(0..10), vec![a]);

    graph.unindex_vertex(a);
    assert_eq!(graph.vertex_query().query_string("red"), vec![b]);
    assert!(graph.vertex_query().query_int(7).is_empty());
    assert!(graph.vertex_query().range_int(0..10).is_empty());
}

#[test]
fn test_vertex_query_mut_access() {
    let mut graph = SlotMapGraph::<&str, ()>::new();
    let a = graph.add_vertex("a");

    graph.vertex_query_mut().insert_int(1, a);
    assert_eq!(graph.vertex_query().query_int(1), vec![a]);
}

#[test]
fn test_adjacent_edges_both_directions() {
    let mut graph = SlotMapGraph::<u8, u8>::new();
    let a = graph.add_vertex(0);
    let b = graph.add_vertex(1);
    let c = graph.add_vertex(2);

    let ab = graph.add_edge(a, b, 0);
    let ca = graph.add_edge(c, a, 1);
    let _bc = graph.add_edge(b, c, 2);

    let around_a = graph.adjacent_edges(a);
    assert_eq!(around_a.len(), 2);
    assert!(around_a.contains(&ab));
    assert!(around_a.contains(&ca));

    let incoming_a = graph.incoming_edges(a);
    assert_eq!(incoming_a, vec![ca]);

    let all = graph.all_edges();
    assert_eq!(all.len(), 3);
    assert_eq!(all[0].0, ab);
    assert_eq!(all[0].2, a);
    assert_eq!(all[0].3, b);
}
