//! Identifier layer: type-distinct vertex and edge ids over the shared
//! generational handle, and the edge connectivity record.

use vstd::prelude::*;

use crate::key::SlotKey;

pub mod vertex_id;
pub mod edge_id;
pub mod edge_info;

pub use vertex_id::VertexId;
pub use edge_id::EdgeId;
pub use edge_info::EdgeInfo;

verus! {

/// Common helpers shared by the id types.
pub trait IdExt {
    /// The underlying generational handle, at the spec level.
    spec fn spec_key(&self) -> SlotKey;

    /// True unless the id is the reserved default, which never names a
    /// live element.
    fn is_valid(&self) -> (r: bool)
        ensures
            r == (self.spec_key() != (SlotKey { index: 0, generation: 0 })),
    ;

    /// The id's slot index as a `usize`, for debugging and hashing.
    fn as_usize(&self) -> (r: usize)
        ensures
            r == self.spec_key().index,
    ;
}

} // verus!
