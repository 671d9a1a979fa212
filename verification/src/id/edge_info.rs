//! The edge connectivity record: the immutable triple binding an edge id
//! to its two endpoint vertex ids. All adjacency and degree queries are
//! defined as filters over these records.

use vstd::prelude::*;

use super::{EdgeId, VertexId};
use crate::key::SlotKey;

verus! {

/// Lexicographic order on handles, by slot index and then generation;
/// used to order endpoint pairs for undirected comparisons.
pub open spec fn key_le(a: SlotKey, b: SlotKey) -> bool {
    a.index < b.index || (a.index == b.index && a.generation <= b.generation)
}

/// The connectivity record of one edge: its own id and its two endpoint
/// vertex ids, from tail to head. Immutable once constructed; to change
/// an edge's connectivity, remove the edge and insert a new one.
///
/// The record does not know whether its endpoints still exist; keeping
/// edge records consistent with live vertices is the owning graph's job,
/// done by removing a vertex only through the cascading path.
#[derive(Debug, Clone, Copy, PartialEq, Eq, Hash)]
pub struct EdgeInfo {
    /// The id of the edge this record belongs to.
    pub edge_id: EdgeId,
    /// The tail: the vertex the edge leaves.
    pub from: VertexId,
    /// The head: the vertex the edge enters.
    pub to: VertexId,
}

impl EdgeInfo {
    /// Build a record from its three ids.
    pub fn new(edge_id: EdgeId, from: VertexId, to: VertexId) -> (r: Self)
        ensures
            r == (EdgeInfo { edge_id, from, to }),
    {
        EdgeInfo { edge_id, from, to }
    }

    /// The id of the edge this record belongs to.
    pub fn edge_id(&self) -> (r: EdgeId)
        ensures
            r == self.edge_id,
    {
        self.edge_id
    }

    /// The tail vertex id.
    pub fn from(&self) -> (r: VertexId)
        ensures
            r == self.from,
    {
        self.from
    }

    /// The head vertex id.
    pub fn to(&self) -> (r: VertexId)
        ensures
            r == self.to,
    {
        self.to
    }

    /// True iff the edge leaves `vertex_id`.
    pub fn connects_from(&self, vertex_id: VertexId) -> (r: bool)
        ensures
            r == (self.from == vertex_id),
    {
        self.from.0 == vertex_id.0
    }

    /// True iff the edge enters `vertex_id`.
    pub fn connects_to(&self, vertex_id: VertexId) -> (r: bool)
        ensures
            r == (self.to == vertex_id),
    {
        self.to.0 == vertex_id.0
    }

    /// True iff the edge goes from `from` to `to`; the direction matters.
    pub fn connects(&self, from: VertexId, to: VertexId) -> (r: bool)
        ensures
            r == (self.from == from && self.to == to),
    {
        self.from.0 == from.0 && self.to.0 == to.0
    }

    /// True iff `vertex_id` is either endpoint.
    pub fn involves(&self, vertex_id: VertexId) -> (r: bool)
        ensures
            r == (self.from == vertex_id || self.to == vertex_id),
    {
        self.from.0 == vertex_id.0 || self.to.0 == vertex_id.0
    }

    /// The same edge with its endpoints swapped.
    pub fn reverse(&self) -> (r: Self)
        ensures
            r == (EdgeInfo { edge_id: self.edge_id, from: self.to, to: self.from }),
    {
        EdgeInfo { edge_id: self.edge_id, from: self.to, to: self.from }
    }

    /// The endpoint pair `(from, to)`.
    pub fn endpoints(&self) -> (r: (VertexId, VertexId))
        ensures
            r == (self.from, self.to),
    {
        (self.from, self.to)
    }

    /// The endpoint pair ordered by handle, for undirected comparisons.
    pub fn sorted_endpoints(&self) -> (r: (VertexId, VertexId))
        ensures
            r == if key_le(self.from.0, self.to.0) {
                (self.from, self.to)
            } else {
                (self.to, self.from)
            },
    {
        if self.from.0.index < self.to.0.index || (self.from.0.index == self.to.0.index
            && self.from.0.generation <= self.to.0.generation) {
            (self.from, self.to)
        } else {
            (self.to, self.from)
        }
    }
}

} // verus!
