//! Storage layer: the generational slot containers for vertices and edges.

pub mod container;
pub mod edge;
pub mod vertex;

pub use container::{Container, ContainerIter, StorageKey};
pub use edge::EdgeContainer;
pub use vertex::VertexContainer;
