//! Tests for the composite vertex query facade: typed dispatch and
//! cross-index removal.

use slotmap_graph::index::{IndexValue, SimpleVertexQuery};
use slotmap_graph::{SlotKey, VertexId};

fn vid(index: usize, generation: u64) -> VertexId {
    VertexId::new(SlotKey { index, generation })
}

#[test]
fn test_simple_vertex_query() {
    let mut query = SimpleVertexQuery::new();

    let id1 = VertexId::new(SlotKey::default());
    let id2 = VertexId::new(SlotKey::default());

    query.insert_string("test", id1);
    query.insert_string("test", id2);

    let results = query.query_string("test");
    assert!(!results.is_empty());

    query.insert_int(42, id1);

    let int_results = query.query_int(42);
    assert_eq!(int_results.len(), 1);

    let range_results = query.range_int(40..50);
    assert_eq!(range_results.len(), 1);
}

#[test]
fn test_query_from_value() {
    let mut query = SimpleVertexQuery::new();
    let id1 = VertexId::new(SlotKey::default());

    query.insert_string("hello", id1);
    query.insert_int(123, id1);

    let str_results = query.query_value(&IndexValue::Str("hello".to_string()));
    assert_eq!(str_results.len(), 1);

    let int_results = query.query_value(&IndexValue::I32(123));
    assert_eq!(int_results.len(), 1);
}

#[test]
fn test_range_query_from_value() {
    let mut query = SimpleVertexQuery::new();
    let id1 = VertexId::new(SlotKey::default());

    query.insert_int(100, id1);

    let range_results = query.range_value(&(IndexValue::I32(90)..IndexValue::I32(110)));
    assert_eq!(range_results.len(), 1);
}

#[test]
fn test_cross_index_removal() {
    // A vertex indexed by both a string and an integer disappears from
    // the string, exact-integer and range lookups at once.
    let mut query = SimpleVertexQuery::new();
    let v = vid(3, 1);
    let other = vid(4, 1);

    query.insert_string("label", v);
    query.insert_string("label", other);
    query.insert_int(10, v);
    query.insert_int(10, other);

    assert_eq!(query.query_string("label").len(), 2);
    assert_eq!(query.query_int(10).len(), 2);
    assert_eq!(query.range_int(0..20).len(), 2);

    query.remove_vertex(v);

    let by_string = query.query_string("label");
    assert_eq!(by_string, vec![other]);
    let by_int = query.query_int(10);
    assert_eq!(by_int, vec![other]);
    let by_range = query.range_int(0..20);
    assert_eq!(by_range, vec![other]);
}

#[test]
fn test_cross_index_removal_cleans_keys() {
    // Removing the only vertex under a key removes the key everywhere:
    // the lookups come back empty afterwards.
    let mut query = SimpleVertexQuery::new();
    let v = vid(7, 2);

    query.insert_string("solo", v);
    query.insert_int(-5, v);

    query.remove_vertex(v);

    assert!(query.query_string("solo").is_empty());
    assert!(query.query_int(-5).is_empty());
    assert!(query.range_int(-10..10).is_empty());

    // Removing an id that is nowhere indexed changes nothing.
    query.remove_vertex(v);
    assert!(query.query_string("solo").is_empty());
}

#[test]
fn test_unsupported_value_kinds_yield_empty() {
    let mut query = SimpleVertexQuery::new();
    let v = vid(1, 1);
    query.insert_int(1, v);
    query.insert_string("x", v);

    assert!(query.query_value(&IndexValue::Bool(true)).is_empty());
    assert!(query.query_value(&IndexValue::U128(1)).is_empty());
    assert!(query.query_value(&IndexValue::I128(1)).is_empty());

    // A mixed-variant pair forms no interval.
    let mixed = query.range_value(&(IndexValue::I32(0)..IndexValue::I64(10)));
    assert!(mixed.is_empty());
    // A string pair forms no interval either.
    let strings =
        query.range_value(&(IndexValue::Str("a".to_string())..IndexValue::Str("z".to_string())));
    assert!(strings.is_empty());
}

#[test]
fn test_int_widths_share_key_space() {
    // Every integer width is normalised into the same signed 64-bit key
    // space, so an exact query of any width finds the value.
    let mut query = SimpleVertexQuery::new();
    let v = vid(2, 1);
    query.insert_int(123, v);

    assert_eq!(query.query_value(&IndexValue::U8(123)).len(), 1);
    assert_eq!(query.query_value(&IndexValue::I16(123)).len(), 1);
    assert_eq!(query.query_value(&IndexValue::U64(123)).len(), 1);
    assert_eq!(query.query_value(&IndexValue::I64(123)).len(), 1);
    assert_eq!(query.query_value(&IndexValue::I64(124)).len(), 0);
}

#[test]
fn test_int_total_counts_pairs() {
    let mut query = SimpleVertexQuery::new();
    let a = vid(1, 1);
    let b = vid(2, 1);

    assert_eq!(query.int_total(), 0);
    query.insert_int(5, a);
    query.insert_int(5, a); // duplicate pair, not counted twice
    query.insert_int(5, b);
    query.insert_int(9, a);
    assert_eq!(query.int_total(), 3);

    query.remove_vertex(a);
    assert_eq!(query.int_total(), 1);
}

#[test]
fn test_facade_clear() {
    let mut query = SimpleVertexQuery::new();
    let v = vid(1, 1);
    query.insert_string("a", v);
    query.insert_int(1, v);

    query.clear();
    assert!(query.query_string("a").is_empty());
    assert!(query.query_int(1).is_empty());
    assert!(query.range_int(0..10).is_empty());
}
