//! The edge identifier: a newtype over the generational handle, kept
//! distinct from [`crate::id::VertexId`] at the type level.

use vstd::prelude::*;

use super::IdExt;
use crate::key::SlotKey;

verus! {

/// An edge identifier. Two ids are equal iff both the slot index and the
/// generation match. The default id is the reserved all-zero handle and
/// never names a live edge.
#[derive(Debug, Clone, Copy, Eq, Hash)]
pub struct EdgeId(pub SlotKey);

impl EdgeId {
    /// Wrap a handle as an edge id.
    pub fn new(key: SlotKey) -> (r: Self)
        ensures
            r == (EdgeId(key)),
    {
        EdgeId(key)
    }

    /// The underlying handle.
    pub fn key(&self) -> (r: SlotKey)
        ensures
            r == self.0,
    {
        self.0
    }

    /// True of the default id, which never names a live edge.
    pub fn is_default(&self) -> (r: bool)
        ensures
            r == (self.0 == (SlotKey { index: 0, generation: 0 })),
    {
        self.0.is_null()
    }
}

impl PartialEq for EdgeId {
    fn eq(&self, other: &EdgeId) -> (r: bool)
        ensures
            r == (self.0 == other.0),
    {
        self.0 == other.0
    }
}

impl vstd::std_specs::cmp::PartialEqSpecImpl for EdgeId {
    open spec fn obeys_eq_spec() -> bool {
        true
    }

    open spec fn eq_spec(&self, other: &EdgeId) -> bool {
        self.0 == other.0
    }
}

impl Default for EdgeId {
    /// The reserved default id.
    fn default() -> (r: Self)
        ensures
            r == (EdgeId(SlotKey { index: 0, generation: 0 })),
    {
        EdgeId(SlotKey { index: 0, generation: 0 })
    }
}

impl IdExt for EdgeId {
    open spec fn spec_key(&self) -> SlotKey {
        self.0
    }

    fn is_valid(&self) -> (r: bool) {
        !(self.0.index == 0 && self.0.generation == 0)
    }

    fn as_usize(&self) -> (r: usize) {
        self.0.index
    }
}

impl From<SlotKey> for EdgeId {
    fn from(key: SlotKey) -> (r: EdgeId) {
        EdgeId(key)
    }
}

impl vstd::std_specs::convert::FromSpecImpl<SlotKey> for EdgeId {
    open spec fn obeys_from_spec() -> bool {
        true
    }

    open spec fn from_spec(key: SlotKey) -> EdgeId {
        EdgeId(key)
    }
}

impl From<EdgeId> for SlotKey {
    fn from(id: EdgeId) -> (r: SlotKey) {
        id.0
    }
}

impl vstd::std_specs::convert::FromSpecImpl<EdgeId> for SlotKey {
    open spec fn obeys_from_spec() -> bool {
        true
    }

    open spec fn from_spec(id: EdgeId) -> SlotKey {
        id.0
    }
}

/// Executable equality on edge ids agrees with spec-level (structural)
/// equality; generic containers rely on this.
pub broadcast proof fn lemma_edge_id_obeys_concrete_eq()
    ensures
        #[trigger] vstd::laws_eq::obeys_concrete_eq::<EdgeId>(),
{
    reveal(vstd::laws_eq::obeys_concrete_eq);
}

} // verus!
