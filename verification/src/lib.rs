//! An in-process graph storage engine: generational slot storage for
//! vertices and edges, adjacency queries over the edge connectivity
//! records, and secondary indexing (exact-match and range multimaps)
//! with a composite query facade for typed property lookups.

pub mod graph;
pub mod id;
pub mod index;
pub mod iteration;
pub mod key;
pub mod storage;

pub use graph::SlotMapGraph;
pub use id::{EdgeId, EdgeInfo, VertexId};
pub use index::{HashIndex, RangeIndex};
pub use key::SlotKey;
pub use storage::{Container, EdgeContainer, VertexContainer};
