//! Index layer: the exact-match and ordered multimap indices, the
//! composite vertex query facade, and the index metadata bookkeeping.

pub mod hash;
pub mod metadata;
pub mod simple_query;
pub mod range;

pub use hash::HashIndex;
pub use metadata::{GenericIndexDefinition, IndexDefinition, IndexMetadata, IndexStats, IndexValue};
pub use simple_query::SimpleVertexQuery;
pub use range::RangeIndex;
