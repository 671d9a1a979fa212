//! Tests for the index metadata and statistics bookkeeping.

use slotmap_graph::index::metadata::{
    GenericIndexDefinition, IndexDefinition, IndexKind, KeyTypeTag,
};
use slotmap_graph::index::{IndexMetadata, IndexStats, IndexValue};

#[test]
fn test_index_value_conversions() {
    let str_val: IndexValue = "hello".to_string().into();
    let u32_val: IndexValue = 42u32.into();
    let bool_val: IndexValue = true.into();

    match str_val {
        IndexValue::Str(s) => assert_eq!(s, "hello"),
        _ => panic!("Expected string value"),
    }

    match u32_val {
        IndexValue::U32(n) => assert_eq!(n, 42),
        _ => panic!("Expected u32 value"),
    }

    match bool_val {
        IndexValue::Bool(b) => assert_eq!(b, true),
        _ => panic!("Expected bool value"),
    }
}

#[test]
fn test_generic_index_definition() {
    type Person = (String, u32, String); // (name, age, profession)

    let age_index = GenericIndexDefinition::new(
        "age".to_string(),
        IndexKind::Range,
        |person: &Person| person.1,
    );

    assert_eq!(age_index.name(), "age");
    assert_eq!(age_index.index_type(), IndexKind::Range);

    let person = ("Alice".to_string(), 30, "Engineer".to_string());
    let age = age_index.extract(&person);
    assert_eq!(age, 30);
}

#[test]
fn test_index_metadata() {
    let mut metadata = IndexMetadata::new(
        "test_index".to_string(),
        IndexKind::Hash,
        KeyTypeTag::Str,
    );

    assert_eq!(metadata.name, "test_index");
    assert_eq!(metadata.index_type, IndexKind::Hash);
    assert!(!metadata.initialized);

    metadata.mark_initialized();
    assert!(metadata.initialized);

    assert!(metadata.matches_key_type(KeyTypeTag::Str));
    assert!(!metadata.matches_key_type(KeyTypeTag::U32));
}

#[test]
fn test_index_stats() {
    let mut stats = IndexStats::new();

    assert_eq!(stats.query_count, 0);
    assert_eq!(stats.hit_count, 0);

    stats.update(100, 50, 1024);
    assert_eq!(stats.entries, 100);
    assert_eq!(stats.unique_keys, 50);
    assert_eq!(stats.size_bytes, 1024);

    stats.record_query(true);
    stats.record_query(false);
    stats.record_query(true);

    assert_eq!(stats.query_count, 3);
    assert_eq!(stats.hit_count, 2);

    stats.reset();
    assert_eq!(stats.query_count, 0);
    assert_eq!(stats.entries, 0);
}

#[test]
fn test_more_index_value_conversions() {
    let u64_val: IndexValue = 7u64.into();
    let i32_val: IndexValue = (-3i32).into();
    let i64_val: IndexValue = (-9i64).into();

    assert!(matches!(u64_val, IndexValue::U64(7)));
    assert!(matches!(i32_val, IndexValue::I32(-3)));
    assert!(matches!(i64_val, IndexValue::I64(-9)));
}
