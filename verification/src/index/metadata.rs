//! Index metadata and statistics: thin bookkeeping about which indices
//! exist and how often they are hit. Not involved in query correctness.

use vstd::prelude::*;

verus! {

/// A typed scalar that can be fed to the query facade: a closed set of
/// variants with exhaustive matching, in place of any runtime
/// type-identity mechanism. Floating-point values are not supported as
/// index keys.
#[derive(Debug, Clone, PartialEq, Eq)]
pub enum IndexValue {
    /// A string value.
    Str(String),
    /// An 8-bit unsigned integer.
    U8(u8),
    /// A 16-bit unsigned integer.
    U16(u16),
    /// A 32-bit unsigned integer.
    U32(u32),
    /// A 64-bit unsigned integer.
    U64(u64),
    /// A 128-bit unsigned integer.
    U128(u128),
    /// An 8-bit signed integer.
    I8(i8),
    /// A 16-bit signed integer.
    I16(i16),
    /// A 32-bit signed integer.
    I32(i32),
    /// A 64-bit signed integer.
    I64(i64),
    /// A 128-bit signed integer.
    I128(i128),
    /// A boolean value.
    Bool(bool),
}

impl From<String> for IndexValue {
    fn from(value: String) -> (r: IndexValue) {
        IndexValue::Str(value)
    }
}

impl vstd::std_specs::convert::FromSpecImpl<String> for IndexValue {
    open spec fn obeys_from_spec() -> bool {
        true
    }

    open spec fn from_spec(value: String) -> IndexValue {
        IndexValue::Str(value)
    }
}

impl From<u32> for IndexValue {
    fn from(value: u32) -> (r: IndexValue) {
        IndexValue::U32(value)
    }
}

impl vstd::std_specs::convert::FromSpecImpl<u32> for IndexValue {
    open spec fn obeys_from_spec() -> bool {
        true
    }

    open spec fn from_spec(value: u32) -> IndexValue {
        IndexValue::U32(value)
    }
}

impl From<u64> for IndexValue {
    fn from(value: u64) -> (r: IndexValue) {
        IndexValue::U64(value)
    }
}

impl vstd::std_specs::convert::FromSpecImpl<u64> for IndexValue {
    open spec fn obeys_from_spec() -> bool {
        true
    }

    open spec fn from_spec(value: u64) -> IndexValue {
        IndexValue::U64(value)
    }
}

impl From<i32> for IndexValue {
    fn from(value: i32) -> (r: IndexValue) {
        IndexValue::I32(value)
    }
}

impl vstd::std_specs::convert::FromSpecImpl<i32> for IndexValue {
    open spec fn obeys_from_spec() -> bool {
        true
    }

    open spec fn from_spec(value: i32) -> IndexValue {
        IndexValue::I32(value)
    }
}

impl From<i64> for IndexValue {
    fn from(value: i64) -> (r: IndexValue) {
        IndexValue::I64(value)
    }
}

impl vstd::std_specs::convert::FromSpecImpl<i64> for IndexValue {
    open spec fn obeys_from_spec() -> bool {
        true
    }

    open spec fn from_spec(value: i64) -> IndexValue {
        IndexValue::I64(value)
    }
}

impl From<bool> for IndexValue {
    fn from(value: bool) -> (r: IndexValue) {
        IndexValue::Bool(value)
    }
}

impl vstd::std_specs::convert::FromSpecImpl<bool> for IndexValue {
    open spec fn obeys_from_spec() -> bool {
        true
    }

    open spec fn from_spec(value: bool) -> IndexValue {
        IndexValue::Bool(value)
    }
}

/// The kind of index backing a query category.
#[derive(Debug, Clone, Copy, PartialEq, Eq, Structural)]
pub enum IndexKind {
    /// Unordered exact-match index.
    Hash,
    /// Ordered index supporting interval queries.
    Range,
}

/// The key type an index was declared over.
#[derive(Debug, Clone, Copy, PartialEq, Eq, Structural)]
pub enum KeyTypeTag {
    /// String keys.
    Str,
    /// 32-bit unsigned integer keys.
    U32,
    /// 64-bit unsigned integer keys.
    U64,
    /// 32-bit signed integer keys.
    I32,
    /// 64-bit signed integer keys.
    I64,
    /// Boolean keys.
    Bool,
}

/// Hit and size counters for one index; observability only.
#[derive(Debug, Clone, PartialEq, Eq, Structural)]
pub struct IndexStats {
    /// Number of stored (key, value) entries.
    pub entries: usize,
    /// Number of distinct keys.
    pub unique_keys: usize,
    /// Estimated size in bytes.
    pub size_bytes: usize,
    /// Number of queries answered.
    pub query_count: u64,
    /// Number of queries that found at least one result.
    pub hit_count: u64,
}

impl IndexStats {
    /// Fresh counters, all zero.
    pub fn new() -> (r: Self)
        ensures
            r == (IndexStats {
                entries: 0,
                unique_keys: 0,
                size_bytes: 0,
                query_count: 0,
                hit_count: 0,
            }),
    {
        IndexStats { entries: 0, unique_keys: 0, size_bytes: 0, query_count: 0, hit_count: 0 }
    }

    /// Overwrite the size figures, keeping the query counters.
    pub fn update(&mut self, entries: usize, unique_keys: usize, size_bytes: usize)
        ensures
            *final(self) == (IndexStats {
                entries,
                unique_keys,
                size_bytes,
                query_count: old(self).query_count,
                hit_count: old(self).hit_count,
            }),
    {
        self.entries = entries;
        self.unique_keys = unique_keys;
        self.size_bytes = size_bytes;
    }

    /// Count one query, and whether it hit.
    pub fn record_query(&mut self, hit: bool)
        requires
            old(self).query_count < u64::MAX,
            old(self).hit_count < u64::MAX,
        ensures
            final(self).query_count == old(self).query_count + 1,
            final(self).hit_count == old(self).hit_count + (if hit {
                1int
            } else {
                0int
            }),
            final(self).entries == old(self).entries,
            final(self).unique_keys == old(self).unique_keys,
            final(self).size_bytes == old(self).size_bytes,
    {
        self.query_count = self.query_count + 1;
        if hit {
            self.hit_count = self.hit_count + 1;
        }
    }

    /// Reset every counter to zero.
    pub fn reset(&mut self)
        ensures
            *final(self) == (IndexStats {
                entries: 0,
                unique_keys: 0,
                size_bytes: 0,
                query_count: 0,
                hit_count: 0,
            }),
    {
        self.entries = 0;
        self.unique_keys = 0;
        self.size_bytes = 0;
        self.query_count = 0;
        self.hit_count = 0;
    }
}

impl Default for IndexStats {
    fn default() -> (r: Self)
        ensures
            r == (IndexStats {
                entries: 0,
                unique_keys: 0,
                size_bytes: 0,
                query_count: 0,
                hit_count: 0,
            }),
    {
        IndexStats { entries: 0, unique_keys: 0, size_bytes: 0, query_count: 0, hit_count: 0 }
    }
}

/// How an index key is pulled out of an element; implemented by users
/// of the index layer to declare which property an index is built over.
pub trait IndexDefinition<T> {
    /// The key type this definition produces.
    type Key;

    /// What the extraction function may assume of its input.
    spec fn extract_req(&self, data: &T) -> bool;

    /// What the extraction function guarantees of its result.
    spec fn extract_ens(&self, data: &T, key: Self::Key) -> bool;

    /// Pull the index key out of an element.
    fn extract(&self, data: &T) -> (r: Self::Key)
        requires
            self.extract_req(data),
        ensures
            self.extract_ens(data, r),
    ;

    /// The kind of index this definition feeds.
    fn index_type(&self) -> (r: IndexKind);

    /// The definition's name.
    fn name(&self) -> (r: &str);
}

/// An index definition given by a name, a kind and an extraction
/// function.
pub struct GenericIndexDefinition<T, K, F> {
    /// The definition's name.
    pub name: String,
    /// The kind of index this definition feeds.
    pub index_type: IndexKind,
    /// The function that pulls the key out of an element.
    pub extract_fn: F,
    /// The element and key types this definition is about.
    pub phantom: core::marker::PhantomData<(T, K)>,
}

impl<T, K, F: Fn(&T) -> K> GenericIndexDefinition<T, K, F> {
    /// Package a name, an index kind and an extraction function as an
    /// index definition.
    pub fn new(name: String, index_type: IndexKind, extract_fn: F) -> (r: Self)
        ensures
            r.name@ == name@,
            r.index_type == index_type,
            r.extract_fn == extract_fn,
    {
        GenericIndexDefinition {
            name,
            index_type,
            extract_fn,
            phantom: core::marker::PhantomData,
        }
    }
}

impl<T, K, F: Fn(&T) -> K> IndexDefinition<T> for GenericIndexDefinition<T, K, F> {
    type Key = K;

    open spec fn extract_req(&self, data: &T) -> bool {
        call_requires(self.extract_fn, (data,))
    }

    open spec fn extract_ens(&self, data: &T, key: K) -> bool {
        call_ensures(self.extract_fn, (data,), key)
    }

    fn extract(&self, data: &T) -> (r: K) {
        (self.extract_fn)(data)
    }

    fn index_type(&self) -> (r: IndexKind) {
        self.index_type
    }

    fn name(&self) -> (r: &str) {
        self.name.as_str()
    }
}

/// Runtime description of one index: its name, kind, declared key type,
/// its counters, and whether it has been initialised.
#[derive(Debug, Clone)]
pub struct IndexMetadata {
    /// The index's name.
    pub name: String,
    /// The index's kind.
    pub index_type: IndexKind,
    /// The declared key type.
    pub key_type: KeyTypeTag,
    /// Usage counters.
    pub stats: IndexStats,
    /// Whether the index has been built.
    pub initialized: bool,
}

impl IndexMetadata {
    /// Metadata for a new, not yet initialised index.
    pub fn new(name: String, index_type: IndexKind, key_type: KeyTypeTag) -> (r: Self)
        ensures
            r.name == name,
            r.index_type == index_type,
            r.key_type == key_type,
            r.stats == (IndexStats {
                entries: 0,
                unique_keys: 0,
                size_bytes: 0,
                query_count: 0,
                hit_count: 0,
            }),
            !r.initialized,
    {
        IndexMetadata { name, index_type, key_type, stats: IndexStats::new(), initialized: false }
    }

    /// Mark the index as built.
    pub fn mark_initialized(&mut self)
        ensures
            *final(self) == (IndexMetadata { initialized: true, ..*old(self) }),
    {
        self.initialized = true;
    }

    /// True iff the index was declared over the given key type.
    pub fn matches_key_type(&self, expected: KeyTypeTag) -> (r: bool)
        ensures
            r == (self.key_type == expected),
    {
        self.key_type == expected
    }
}

} // verus!
