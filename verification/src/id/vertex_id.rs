//! The vertex identifier: a newtype over the generational handle, kept
//! distinct from [`crate::id::EdgeId`] at the type level so the two can
//! never be interchanged.

use vstd::prelude::*;

use super::IdExt;
use crate::key::SlotKey;

verus! {

/// A vertex identifier. Two ids are equal iff both the slot index and the
/// generation match. The default id is the reserved all-zero handle and
/// never names a live vertex.
#[derive(Debug, Clone, Copy, Eq, Hash)]
pub struct VertexId(pub SlotKey);

impl VertexId {
    /// Wrap a handle as a vertex id.
    pub fn new(key: SlotKey) -> (r: Self)
        ensures
            r == (VertexId(key)),
    {
        VertexId(key)
    }

    /// The underlying handle.
    pub fn key(&self) -> (r: SlotKey)
        ensures
            r == self.0,
    {
        self.0
    }

    /// True of the default id, which never names a live vertex.
    pub fn is_default(&self) -> (r: bool)
        ensures
            r == (self.0 == (SlotKey { index: 0, generation: 0 })),
    {
        self.0.is_null()
    }
}

impl PartialEq for VertexId {
    fn eq(&self, other: &VertexId) -> (r: bool)
        ensures
            r == (self.0 == other.0),
    {
        self.0 == other.0
    }
}

impl vstd::std_specs::cmp::PartialEqSpecImpl for VertexId {
    open spec fn obeys_eq_spec() -> bool {
        true
    }

    open spec fn eq_spec(&self, other: &VertexId) -> bool {
        self.0 == other.0
    }
}

impl Default for VertexId {
    /// The reserved default id.
    fn default() -> (r: Self)
        ensures
            r == (VertexId(SlotKey { index: 0, generation: 0 })),
    {
        VertexId(SlotKey { index: 0, generation: 0 })
    }
}

impl IdExt for VertexId {
    open spec fn spec_key(&self) -> SlotKey {
        self.0
    }

    fn is_valid(&self) -> (r: bool) {
        !(self.0.index == 0 && self.0.generation == 0)
    }

    fn as_usize(&self) -> (r: usize) {
        self.0.index
    }
}

impl From<SlotKey> for VertexId {
    fn from(key: SlotKey) -> (r: VertexId) {
        VertexId(key)
    }
}

impl vstd::std_specs::convert::FromSpecImpl<SlotKey> for VertexId {
    open spec fn obeys_from_spec() -> bool {
        true
    }

    open spec fn from_spec(key: SlotKey) -> VertexId {
        VertexId(key)
    }
}

impl From<VertexId> for SlotKey {
    fn from(id: VertexId) -> (r: SlotKey) {
        id.0
    }
}

impl vstd::std_specs::convert::FromSpecImpl<VertexId> for SlotKey {
    open spec fn obeys_from_spec() -> bool {
        true
    }

    open spec fn from_spec(id: VertexId) -> SlotKey {
        id.0
    }
}

/// Executable equality on vertex ids agrees with spec-level (structural)
/// equality; generic containers rely on this.
pub broadcast proof fn lemma_vertex_id_obeys_concrete_eq()
    ensures
        #[trigger] vstd::laws_eq::obeys_concrete_eq::<VertexId>(),
{
    reveal(vstd::laws_eq::obeys_concrete_eq);
}

} // verus!
