//! The graph: a vertex store, an edge store and the composite vertex
//! query facade, tied together. Vertex removal cascades: every edge
//! touching the removed vertex is collected first and then removed, and
//! only then the vertex itself, so no edge is ever left pointing at a
//! vertex that was removed through this path.
//!
//! Index entries are not maintained automatically: callers that want a
//! vertex property indexed feed it to the query facade explicitly, and
//! are responsible for purging it again (`SimpleVertexQuery::remove_vertex`).

use vstd::prelude::*;

use crate::id::{EdgeId, EdgeInfo, VertexId};
use crate::index::hash::multimap_insert;
use crate::index::range::{range_values, KeyBound};
use crate::index::simple_query::{multimap_purge, SimpleVertexQuery};
use crate::storage::{EdgeContainer, VertexContainer};

verus! {

/// The edges leaving `v`.
pub open spec fn out_edges<E>(m: Map<EdgeId, (E, EdgeInfo)>, v: VertexId) -> Set<EdgeId> {
    Set::new(|id: EdgeId| m.dom().contains(id) && m[id].1.from == v)
}

/// The edges entering `v`.
pub open spec fn in_edges<E>(m: Map<EdgeId, (E, EdgeInfo)>, v: VertexId) -> Set<EdgeId> {
    Set::new(|id: EdgeId| m.dom().contains(id) && m[id].1.to == v)
}

/// The edges touching `v` at either end.
pub open spec fn touching_edges<E>(m: Map<EdgeId, (E, EdgeInfo)>, v: VertexId) -> Set<EdgeId> {
    Set::new(
        |id: EdgeId| m.dom().contains(id) && (m[id].1.from == v || m[id].1.to == v),
    )
}

/// The edge map with every edge touching `v` dropped.
pub open spec fn drop_touching<E>(m: Map<EdgeId, (E, EdgeInfo)>, v: VertexId) -> Map<
    EdgeId,
    (E, EdgeInfo),
> {
    Map::new(
        |id: EdgeId| m.dom().contains(id) && !(m[id].1.from == v || m[id].1.to == v),
        |id: EdgeId| m[id],
    )
}

/// The graph: generational vertex and edge stores plus the composite
/// vertex query facade.
#[derive(Debug)]
pub struct SlotMapGraph<Vertex, Edge> {
    vertices: VertexContainer<Vertex>,
    edges: EdgeContainer<Edge>,
    vertex_query: SimpleVertexQuery,
}

impl<Vertex, Edge> SlotMapGraph<Vertex, Edge> {
    /// Internal well-formedness, established by `new` and preserved by
    /// every operation.
    pub closed spec fn wf(&self) -> bool {
        &&& self.vertices.wf()
        &&& self.edges.wf()
        &&& self.vertex_query.wf()
    }

    /// The live vertices.
    pub closed spec fn vertices_view(&self) -> Map<VertexId, Vertex> {
        self.vertices@
    }

    /// The live edges with their connectivity records.
    pub closed spec fn edges_view(&self) -> Map<EdgeId, (Edge, EdgeInfo)> {
        self.edges@
    }

    /// The query facade's state.
    pub closed spec fn spec_query(&self) -> SimpleVertexQuery {
        self.vertex_query
    }

    /// Number of live vertices.
    pub closed spec fn spec_vertex_count(&self) -> nat {
        self.vertices.spec_len()
    }

    /// Number of live edges.
    pub closed spec fn spec_edge_count(&self) -> nat {
        self.edges.spec_len()
    }

    /// A vertex id that can never resolve again.
    pub closed spec fn vertex_dead(&self, id: VertexId) -> bool {
        self.vertices.dead(id)
    }

    /// An edge id that can never resolve again.
    pub closed spec fn edge_dead(&self, id: EdgeId) -> bool {
        self.edges.dead(id)
    }

    /// Generational safety for vertices: a dead vertex id does not
    /// resolve, whatever has been inserted since.
    pub proof fn lemma_vertex_generational_safety(&self, id: VertexId)
        requires
            self.wf(),
            self.vertex_dead(id),
        ensures
            !self.vertices_view().dom().contains(id),
    {
        self.vertices.lemma_generational_safety(id);
    }

    /// Generational safety for edges: a dead edge id does not resolve.
    pub proof fn lemma_edge_generational_safety(&self, id: EdgeId)
        requires
            self.wf(),
            self.edge_dead(id),
        ensures
            !self.edges_view().dom().contains(id),
    {
        self.edges.lemma_generational_safety(id);
    }

    /// An empty graph.
    pub fn new() -> (r: Self)
        ensures
            r.wf(),
            r.vertices_view() == Map::<VertexId, Vertex>::empty(),
            r.edges_view() == Map::<EdgeId, (Edge, EdgeInfo)>::empty(),
            r.spec_vertex_count() == 0,
            r.spec_edge_count() == 0,
            r.spec_query().string_view() == Map::<Seq<char>, Set<VertexId>>::empty(),
            r.spec_query().int_view() == Map::<i64, Set<VertexId>>::empty(),
    {
        SlotMapGraph {
            vertices: VertexContainer::new(),
            edges: EdgeContainer::new(),
            vertex_query: SimpleVertexQuery::new(),
        }
    }

    /// Store a vertex and return its fresh id. Nothing is indexed
    /// automatically.
    pub fn add_vertex(&mut self, vertex: Vertex) -> (r: VertexId)
        requires
            old(self).wf(),
        ensures
            final(self).wf(),
            !old(self).vertices_view().dom().contains(r),
            final(self).vertices_view() == old(self).vertices_view().insert(r, vertex),
            final(self).spec_vertex_count() == old(self).spec_vertex_count() + 1,
            final(self).edges_view() == old(self).edges_view(),
            final(self).spec_edge_count() == old(self).spec_edge_count(),
            final(self).spec_query() == old(self).spec_query(),
            r.0.generation >= 1,
            forall|id: VertexId| old(self).vertex_dead(id) ==> final(self).vertex_dead(id),
            forall|id: EdgeId| old(self).edge_dead(id) ==> final(self).edge_dead(id),
    {
        self.vertices.insert(vertex)
    }

    /// Store an edge from `from` to `to` and return its fresh id. The
    /// endpoints are not checked against the vertex store: keeping edges
    /// consistent with live vertices is the caller's responsibility, met
    /// by always removing vertices through [`Self::remove_vertex`].
    pub fn add_edge(&mut self, from: VertexId, to: VertexId, edge: Edge) -> (r: EdgeId)
        requires
            old(self).wf(),
        ensures
            final(self).wf(),
            !old(self).edges_view().dom().contains(r),
            final(self).edges_view() == old(self).edges_view().insert(
                r,
                (edge, EdgeInfo { edge_id: r, from, to }),
            ),
            final(self).spec_edge_count() == old(self).spec_edge_count() + 1,
            final(self).vertices_view() == old(self).vertices_view(),
            final(self).spec_vertex_count() == old(self).spec_vertex_count(),
            final(self).spec_query() == old(self).spec_query(),
            r.0.generation >= 1,
            forall|id: VertexId| old(self).vertex_dead(id) ==> final(self).vertex_dead(id),
            forall|id: EdgeId| old(self).edge_dead(id) ==> final(self).edge_dead(id),
    {
        self.edges.insert(edge, from, to)
    }

    /// The payload of a vertex, or `None` for a stale or unknown id.
    pub fn vertex(&self, id: VertexId) -> (r: Option<&Vertex>)
        requires
            self.wf(),
        ensures
            match r {
                Some(v) => self.vertices_view().dom().contains(id) && *v == self.vertices_view()[id],
                None => !self.vertices_view().dom().contains(id),
            },
    {
        self.vertices.get(id)
    }

    /// Exclusive access to the payload of a vertex.
    pub fn vertex_mut(&mut self, id: VertexId) -> (r: Option<&mut Vertex>)
        requires
            old(self).wf(),
        ensures
            final(self).wf(),
            final(self).edges_view() == old(self).edges_view(),
            final(self).spec_query() == old(self).spec_query(),
            final(self).spec_vertex_count() == old(self).spec_vertex_count(),
            final(self).spec_edge_count() == old(self).spec_edge_count(),
            forall|id2: VertexId| old(self).vertex_dead(id2) ==> final(self).vertex_dead(id2),
            match r {
                Some(v) => {
                    &&& old(self).vertices_view().dom().contains(id)
                    &&& *v == old(self).vertices_view()[id]
                    &&& final(self).vertices_view().dom().contains(id)
                    &&& final(self).vertices_view()[id] == *final(v)
                    &&& forall|id2: VertexId|
                        #[trigger] final(self).vertices_view().dom().contains(id2)
                            <==> old(self).vertices_view().dom().contains(id2)
                    &&& forall|id2: VertexId|
                        id2 != id && old(self).vertices_view().dom().contains(id2)
                            ==> #[trigger] final(self).vertices_view()[id2] == old(self).vertices_view()[id2]
                },
                None => {
                    &&& !old(self).vertices_view().dom().contains(id)
                    &&& final(self).vertices_view() == old(self).vertices_view()
                },
            },
    {
        self.vertices.get_mut(id)
    }

    /// The payload and endpoints of an edge, or `None` for a stale or
    /// unknown id.
    pub fn edge(&self, id: EdgeId) -> (r: Option<(&Edge, VertexId, VertexId)>)
        requires
            self.wf(),
        ensures
            match r {
                Some(p) => {
                    &&& self.edges_view().dom().contains(id)
                    &&& *p.0 == self.edges_view()[id].0
                    &&& p.1 == self.edges_view()[id].1.from
                    &&& p.2 == self.edges_view()[id].1.to
                },
                None => !self.edges_view().dom().contains(id),
            },
    {
        match self.edges.get_connection(id) {
            Some(ci) => {
                let f = ci.from();
                let t = ci.to();
                match self.edges.get(id) {
                    Some(w) => Some((w, f, t)),
                    None => None,
                }
            },
            None => None,
        }
    }

    /// Exclusive access to the payload of an edge; its connectivity
    /// record cannot change.
    pub fn edge_mut(&mut self, id: EdgeId) -> (r: Option<&mut Edge>)
        requires
            old(self).wf(),
        ensures
            final(self).wf(),
            final(self).vertices_view() == old(self).vertices_view(),
            final(self).spec_query() == old(self).spec_query(),
            final(self).spec_vertex_count() == old(self).spec_vertex_count(),
            final(self).spec_edge_count() == old(self).spec_edge_count(),
            forall|id2: EdgeId| old(self).edge_dead(id2) ==> final(self).edge_dead(id2),
            match r {
                Some(v) => {
                    &&& old(self).edges_view().dom().contains(id)
                    &&& *v == old(self).edges_view()[id].0
                    &&& final(self).edges_view().dom().contains(id)
                    &&& final(self).edges_view()[id].0 == *final(v)
                    &&& final(self).edges_view()[id].1 == old(self).edges_view()[id].1
                    &&& forall|id2: EdgeId|
                        #[trigger] final(self).edges_view().dom().contains(id2)
                            <==> old(self).edges_view().dom().contains(id2)
                    &&& forall|id2: EdgeId|
                        id2 != id && old(self).edges_view().dom().contains(id2)
                            ==> #[trigger] final(self).edges_view()[id2] == old(self).edges_view()[id2]
                },
                None => {
                    &&& !old(self).edges_view().dom().contains(id)
                    &&& final(self).edges_view() == old(self).edges_view()
                },
            },
    {
        self.edges.get_mut(id)
    }

    /// The tail of an edge, or `None` for a stale or unknown id.
    pub fn edge_from(&self, edge_id: EdgeId) -> (r: Option<VertexId>)
        requires
            self.wf(),
        ensures
            match r {
                Some(v) => self.edges_view().dom().contains(edge_id) && v == self.edges_view()[edge_id].1.from,
                None => !self.edges_view().dom().contains(edge_id),
            },
    {
        match self.edges.get_connection(edge_id) {
            Some(ci) => Some(ci.from()),
            None => None,
        }
    }

    /// The head of an edge, or `None` for a stale or unknown id.
    pub fn edge_to(&self, edge_id: EdgeId) -> (r: Option<VertexId>)
        requires
            self.wf(),
        ensures
            match r {
                Some(v) => self.edges_view().dom().contains(edge_id) && v == self.edges_view()[edge_id].1.to,
                None => !self.edges_view().dom().contains(edge_id),
            },
    {
        match self.edges.get_connection(edge_id) {
            Some(ci) => Some(ci.to()),
            None => None,
        }
    }

    /// The ids of all edges leaving `vertex_id`, in slot order.
    pub fn outgoing_edges(&self, vertex_id: VertexId) -> (r: Vec<EdgeId>)
        requires
            self.wf(),
        ensures
            forall|j: int|
                0 <= j < r@.len() ==> self.edges_view().dom().contains(#[trigger] r@[j])
                    && self.edges_view()[r@[j]].1.from == vertex_id,
            forall|id: EdgeId|
                #[trigger] self.edges_view().dom().contains(id) && self.edges_view()[id].1.from
                    == vertex_id ==> r@.contains(id),
            r@.no_duplicates(),
    {
        self.edges.edges_from(vertex_id)
    }

    /// The ids of all edges entering `vertex_id`, in slot order.
    pub fn incoming_edges(&self, vertex_id: VertexId) -> (r: Vec<EdgeId>)
        requires
            self.wf(),
        ensures
            forall|j: int|
                0 <= j < r@.len() ==> self.edges_view().dom().contains(#[trigger] r@[j])
                    && self.edges_view()[r@[j]].1.to == vertex_id,
            forall|id: EdgeId|
                #[trigger] self.edges_view().dom().contains(id) && self.edges_view()[id].1.to
                    == vertex_id ==> r@.contains(id),
            r@.no_duplicates(),
    {
        self.edges.edges_to(vertex_id)
    }

    /// The ids of all edges touching `vertex_id` at either end, in slot
    /// order.
    pub fn adjacent_edges(&self, vertex_id: VertexId) -> (r: Vec<EdgeId>)
        requires
            self.wf(),
        ensures
            forall|j: int|
                0 <= j < r@.len() ==> self.edges_view().dom().contains(#[trigger] r@[j]) && (
                self.edges_view()[r@[j]].1.from == vertex_id || self.edges_view()[r@[j]].1.to
                    == vertex_id),
            forall|id: EdgeId|
                #[trigger] self.edges_view().dom().contains(id) && (self.edges_view()[id].1.from
                    == vertex_id || self.edges_view()[id].1.to == vertex_id) ==> r@.contains(id),
            r@.no_duplicates(),
    {
        self.edges.edges_adjacent(vertex_id)
    }

    /// The ids of all edges going from `from` to `to`; directed.
    pub fn edges_between(&self, from: VertexId, to: VertexId) -> (r: Vec<EdgeId>)
        requires
            self.wf(),
        ensures
            forall|j: int|
                0 <= j < r@.len() ==> self.edges_view().dom().contains(#[trigger] r@[j])
                    && self.edges_view()[r@[j]].1.from == from && self.edges_view()[r@[j]].1.to
                    == to,
            forall|id: EdgeId|
                #[trigger] self.edges_view().dom().contains(id) && self.edges_view()[id].1.from
                    == from && self.edges_view()[id].1.to == to ==> r@.contains(id),
            r@.no_duplicates(),
    {
        self.edges.edges_between(from, to)
    }

    /// True iff some edge goes from `from` to `to`; directed, so an edge
    /// the other way does not count.
    pub fn has_edge(&self, from: VertexId, to: VertexId) -> (r: bool)
        requires
            self.wf(),
        ensures
            r == exists|id: EdgeId|
                #[trigger] self.edges_view().dom().contains(id) && self.edges_view()[id].1.from
                    == from && self.edges_view()[id].1.to == to,
    {
        let r = self.edges.has_edge_between(from, to);
        proof {
            if r {
                let id = choose|id: EdgeId|
                    #[trigger] self.edges@.dom().contains(id) && self.edges@[id].1.from == from
                        && self.edges@[id].1.to == to;
                assert(self.edges_view().dom().contains(id) && self.edges_view()[id].1.from == from
                    && self.edges_view()[id].1.to == to);
            } else {
                assert forall|id: EdgeId|
                    #[trigger] self.edges_view().dom().contains(id) && self.edges_view()[id].1.from
                        == from && self.edges_view()[id].1.to == to implies false by {
                    assert(self.edges@.dom().contains(id) && self.edges@[id].1.from == from
                        && self.edges@[id].1.to == to);
                }
            }
        }
        r
    }

    /// The number of edges leaving `vertex_id`.
    pub fn out_degree(&self, vertex_id: VertexId) -> (r: usize)
        requires
            self.wf(),
        ensures
            out_edges(self.edges_view(), vertex_id).finite(),
            r == out_edges(self.edges_view(), vertex_id).len(),
    {
        let es = self.edges.edges_from(vertex_id);
        proof {
            assert(es@.to_set() =~= out_edges(self.edges_view(), vertex_id));
            es@.unique_seq_to_set();
        }
        es.len()
    }

    /// The number of edges entering `vertex_id`.
    pub fn in_degree(&self, vertex_id: VertexId) -> (r: usize)
        requires
            self.wf(),
        ensures
            in_edges(self.edges_view(), vertex_id).finite(),
            r == in_edges(self.edges_view(), vertex_id).len(),
    {
        let es = self.edges.edges_to(vertex_id);
        proof {
            assert(es@.to_set() =~= in_edges(self.edges_view(), vertex_id));
            es@.unique_seq_to_set();
        }
        es.len()
    }

    /// The number of edges touching `vertex_id` at either end; an edge
    /// from the vertex to itself counts once.
    pub fn degree(&self, vertex_id: VertexId) -> (r: usize)
        requires
            self.wf(),
        ensures
            touching_edges(self.edges_view(), vertex_id).finite(),
            r == touching_edges(self.edges_view(), vertex_id).len(),
    {
        let es = self.edges.edges_adjacent(vertex_id);
        proof {
            assert(es@.to_set() =~= touching_edges(self.edges_view(), vertex_id));
            es@.unique_seq_to_set();
        }
        es.len()
    }

    /// All live vertices as (id, payload reference) pairs, in slot
    /// order, each id exactly once.
    pub fn all_vertices(&self) -> (r: Vec<(VertexId, &Vertex)>)
        requires
            self.wf(),
        ensures
            r@.len() == self.spec_vertex_count(),
            forall|j: int|
                0 <= j < r@.len() ==> self.vertices_view().dom().contains(#[trigger] r@[j].0) && *r@[j].1 == self.vertices_view()[r@[j].0],
            forall|id: VertexId|
                #[trigger] self.vertices_view().dom().contains(id) ==> exists|j: int|
                    0 <= j < r@.len() && r@[j].0 == id,
    {
        self.vertices.iter()
    }

    /// All live edges as (id, payload reference, tail, head) tuples, in
    /// slot order, each id exactly once.
    pub fn all_edges(&self) -> (r: Vec<(EdgeId, &Edge, VertexId, VertexId)>)
        requires
            self.wf(),
        ensures
            r@.len() == self.spec_edge_count(),
            forall|j: int|
                0 <= j < r@.len() ==> {
                    &&& self.edges_view().dom().contains(#[trigger] r@[j].0)
                    &&& *r@[j].1 == self.edges_view()[r@[j].0].0
                    &&& r@[j].2 == self.edges_view()[r@[j].0].1.from
                    &&& r@[j].3 == self.edges_view()[r@[j].0].1.to
                },
            forall|id: EdgeId|
                #[trigger] self.edges_view().dom().contains(id) ==> exists|j: int|
                    0 <= j < r@.len() && r@[j].0 == id,
    {
        let ps = self.edges.iter_with_connections();
        let n = ps.len();
        let mut r: Vec<(EdgeId, &Edge, VertexId, VertexId)> = Vec::new();
        let mut j: usize = 0;
        while j < n
            invariant
                n == ps@.len(),
                j <= n,
                r@.len() == j,
                forall|t: int|
                    0 <= t < j ==> #[trigger] r@[t] == (
                        ps@[t].0,
                        ps@[t].1,
                        ps@[t].2.from,
                        ps@[t].2.to,
                    ),
                forall|t: int|
                    0 <= t < n ==> {
                        &&& self.edges_view().dom().contains(#[trigger] ps@[t].0)
                        &&& *ps@[t].1 == self.edges_view()[ps@[t].0].0
                        &&& *ps@[t].2 == self.edges_view()[ps@[t].0].1
                    },
            decreases n - j,
        {
            let p = ps[j];
            let f = p.2.from();
            let t = p.2.to();
            r.push((p.0, p.1, f, t));
            j = j + 1;
        }
        proof {
            assert forall|id: EdgeId|
                #[trigger] self.edges_view().dom().contains(id) implies exists|j: int|
                0 <= j < r@.len() && r@[j].0 == id by {
                let t = choose|t: int| 0 <= t < ps@.len() && #[trigger] ps@[t].0 == id;
                assert(r@[t].0 == id);
            }
        }
        r
    }

    /// Number of live vertices.
    pub fn vertex_count(&self) -> (r: usize)
        requires
            self.wf(),
        ensures
            r == self.spec_vertex_count(),
    {
        self.vertices.len()
    }

    /// Number of live edges.
    pub fn edge_count(&self) -> (r: usize)
        requires
            self.wf(),
        ensures
            r == self.spec_edge_count(),
    {
        self.edges.len()
    }

    /// True iff `vertex_id` resolves to a live vertex.
    pub fn contains_vertex(&self, vertex_id: VertexId) -> (r: bool)
        requires
            self.wf(),
        ensures
            r == self.vertices_view().dom().contains(vertex_id),
    {
        self.vertices.contains(vertex_id)
    }

    /// True iff `edge_id` resolves to a live edge.
    pub fn contains_edge(&self, edge_id: EdgeId) -> (r: bool)
        requires
            self.wf(),
        ensures
            r == self.edges_view().dom().contains(edge_id),
    {
        self.edges.contains(edge_id)
    }

    /// True iff the graph holds neither vertices nor edges.
    pub fn is_empty(&self) -> (r: bool)
        requires
            self.wf(),
        ensures
            r == (self.spec_vertex_count() == 0 && self.spec_edge_count() == 0),
    {
        self.vertices.is_empty() && self.edges.is_empty()
    }

    /// Remove an edge, returning its payload when the id was live. A
    /// removed id is dead and never resolves again.
    pub fn remove_edge(&mut self, edge_id: EdgeId) -> (r: Option<Edge>)
        requires
            old(self).wf(),
        ensures
            final(self).wf(),
            final(self).vertices_view() == old(self).vertices_view(),
            final(self).spec_vertex_count() == old(self).spec_vertex_count(),
            final(self).spec_query() == old(self).spec_query(),
            match r {
                Some(e) => {
                    &&& old(self).edges_view().dom().contains(edge_id)
                    &&& e == old(self).edges_view()[edge_id].0
                    &&& final(self).edges_view() == old(self).edges_view().remove(edge_id)
                    &&& final(self).spec_edge_count() + 1 == old(self).spec_edge_count()
                    &&& final(self).edge_dead(edge_id)
                },
                None => {
                    &&& !old(self).edges_view().dom().contains(edge_id)
                    &&& final(self).edges_view() == old(self).edges_view()
                    &&& final(self).spec_edge_count() == old(self).spec_edge_count()
                },
            },
            forall|id: EdgeId| old(self).edge_dead(id) ==> final(self).edge_dead(id),
    {
        match self.edges.remove(edge_id) {
            Some(p) => Some(p.0),
            None => None,
        }
    }

    /// Remove a vertex, cascading to its incident edges: every edge
    /// touching the vertex is collected first, then removed, and only
    /// then the vertex slot itself. The edge count drops by exactly the
    /// number of touching edges; other vertices and edges are untouched;
    /// the query facade is not involved (callers purge it separately).
    pub fn remove_vertex(&mut self, id: VertexId) -> (r: Option<Vertex>)
        requires
            old(self).wf(),
        ensures
            final(self).wf(),
            final(self).spec_query() == old(self).spec_query(),
            final(self).edges_view() == drop_touching(old(self).edges_view(), id),
            touching_edges(old(self).edges_view(), id).finite(),
            final(self).spec_edge_count() + touching_edges(old(self).edges_view(), id).len()
                == old(self).spec_edge_count(),
            match r {
                Some(v) => {
                    &&& old(self).vertices_view().dom().contains(id)
                    &&& v == old(self).vertices_view()[id]
                    &&& final(self).vertices_view() == old(self).vertices_view().remove(id)
                    &&& final(self).spec_vertex_count() + 1 == old(self).spec_vertex_count()
                    &&& final(self).vertex_dead(id)
                },
                None => {
                    &&& !old(self).vertices_view().dom().contains(id)
                    &&& final(self).vertices_view() == old(self).vertices_view()
                    &&& final(self).spec_vertex_count() == old(self).spec_vertex_count()
                },
            },
            forall|id2: VertexId| old(self).vertex_dead(id2) ==> final(self).vertex_dead(id2),
            forall|id2: EdgeId| old(self).edge_dead(id2) ==> final(self).edge_dead(id2),
    {
        let victims = self.edges.edges_adjacent(id);
        let ghost ev0 = self.edges@;
        let ghost ecount0 = self.edges.spec_len();
        let n = victims.len();
        let mut i: usize = 0;
        while i < n
            invariant
                self.edges.wf(),
                n == victims@.len(),
                i <= n,
                victims@.no_duplicates(),
                forall|j: int|
                    0 <= j < n ==> ev0.dom().contains(#[trigger] victims@[j]) && (ev0[victims@[j]].1.from == id || ev0[victims@[j]].1.to == id),
                forall|eid: EdgeId|
                    #[trigger] ev0.dom().contains(eid) && (ev0[eid].1.from == id || ev0[eid].1.to
                        == id) ==> victims@.contains(eid),
                forall|eid: EdgeId|
                    #[trigger] self.edges@.dom().contains(eid) <==> ev0.dom().contains(eid)
                        && !victims@.subrange(0, i as int).contains(eid),
                forall|eid: EdgeId|
                    #[trigger] self.edges@.dom().contains(eid) ==> self.edges@[eid] == ev0[eid],
                self.edges.spec_len() + i == ecount0,
                forall|eid: EdgeId| old(self).edges.dead(eid) ==> #[trigger] self.edges.dead(eid),
                forall|j: int| 0 <= j < i ==> #[trigger] self.edges.dead(victims@[j]),
                self.vertices == old(self).vertices,
                self.vertex_query == old(self).vertex_query,
            decreases n - i,
        {
            let victim = victims[i];
            proof {
                assert(!victims@.subrange(0, i as int).contains(victim)) by {
                    if victims@.subrange(0, i as int).contains(victim) {
                        let t = choose|t: int|
                            0 <= t < i && #[trigger] victims@.subrange(0, i as int)[t] == victim;
                        assert(victims@[t] == victims@[i as int]);
                    }
                }
                assert(self.edges@.dom().contains(victim));
            }
            let ghost evi = self.edges@;
            let _ = self.edges.remove(victim);
            proof {
                assert(victims@.subrange(0, i + 1) =~= victims@.subrange(0, i as int).push(victim));
                assert forall|eid: EdgeId|
                    #[trigger] self.edges@.dom().contains(eid) <==> ev0.dom().contains(eid)
                        && !victims@.subrange(0, i + 1).contains(eid) by {
                    assert(victims@.subrange(0, i + 1).contains(eid) <==> (victims@.subrange(
                        0,
                        i as int,
                    ).contains(eid) || eid == victim)) by {
                        let pre = victims@.subrange(0, i as int);
                        if pre.contains(eid) {
                            let t = choose|t: int| 0 <= t < pre.len() && #[trigger] pre[t] == eid;
                            assert(victims@.subrange(0, i + 1)[t] == eid);
                        }
                        if eid == victim {
                            assert(victims@.subrange(0, i + 1)[i as int] == eid);
                        }
                        if victims@.subrange(0, i + 1).contains(eid) {
                            let t = choose|t: int|
                                0 <= t < i + 1 && #[trigger] victims@.subrange(0, i + 1)[t] == eid;
                            if t < i {
                                assert(pre[t] == eid);
                            }
                        }
                    }
                }
            }
            i = i + 1;
        }
        proof {
            assert(victims@.subrange(0, n as int) =~= victims@);
            assert forall|eid: EdgeId|
                #[trigger] self.edges@.dom().contains(eid) <==> drop_touching(
                ev0,
                id,
            ).dom().contains(eid) by {
                if ev0.dom().contains(eid) && (ev0[eid].1.from == id || ev0[eid].1.to == id) {
                    assert(victims@.contains(eid));
                }
                if victims@.contains(eid) {
                    let t = choose|t: int| 0 <= t < victims@.len() && #[trigger] victims@[t] == eid;
                    assert(ev0[eid].1.from == id || ev0[eid].1.to == id);
                }
            }
            assert(self.edges@ =~= drop_touching(ev0, id));
            assert(victims@.to_set() =~= touching_edges(ev0, id));
            victims@.unique_seq_to_set();
        }
        self.vertices.remove(id)
    }

    /// Drop every vertex and edge, bumping slot generations so that all
    /// previously live ids are dead. The query facade is untouched:
    /// callers clear it separately if they indexed anything.
    pub fn clear(&mut self)
        requires
            old(self).wf(),
        ensures
            final(self).wf(),
            final(self).vertices_view() == Map::<VertexId, Vertex>::empty(),
            final(self).edges_view() == Map::<EdgeId, (Edge, EdgeInfo)>::empty(),
            final(self).spec_vertex_count() == 0,
            final(self).spec_edge_count() == 0,
            final(self).spec_query() == old(self).spec_query(),
            forall|id: VertexId|
                old(self).vertices_view().dom().contains(id) ==> final(self).vertex_dead(id),
            forall|id: EdgeId|
                old(self).edges_view().dom().contains(id) ==> final(self).edge_dead(id),
            forall|id: VertexId| old(self).vertex_dead(id) ==> final(self).vertex_dead(id),
            forall|id: EdgeId| old(self).edge_dead(id) ==> final(self).edge_dead(id),
    {
        self.vertices.clear();
        self.edges.clear();
    }

    /// A shared view of the query facade.
    pub fn vertex_query(&self) -> (r: &SimpleVertexQuery)
        requires
            self.wf(),
        ensures
            *r == self.spec_query(),
            r.wf(),
    {
        &self.vertex_query
    }

    /// Exclusive access to the query facade, for manual index
    /// maintenance and queries.
    pub fn vertex_query_mut(&mut self) -> (r: &mut SimpleVertexQuery)
        requires
            old(self).wf(),
        ensures
            *r == old(self).spec_query(),
            r.wf(),
            final(self).spec_query() == *final(r),
            final(self).vertices_view() == old(self).vertices_view(),
            final(self).edges_view() == old(self).edges_view(),
            final(self).spec_vertex_count() == old(self).spec_vertex_count(),
            final(self).spec_edge_count() == old(self).spec_edge_count(),
            (*final(r)).wf() ==> final(self).wf(),
    {
        &mut self.vertex_query
    }

    /// Record a string property for a vertex in the query facade.
    pub fn index_vertex_string(&mut self, vertex_id: VertexId, value: &str)
        requires
            old(self).wf(),
        ensures
            final(self).wf(),
            final(self).spec_query().string_view() == multimap_insert(
                old(self).spec_query().string_view(),
                value@,
                vertex_id,
            ),
            final(self).spec_query().int_view() == old(self).spec_query().int_view(),
            final(self).spec_query().int_range_entries() == old(self).spec_query().int_range_entries(),
            final(self).vertices_view() == old(self).vertices_view(),
            final(self).edges_view() == old(self).edges_view(),
            final(self).spec_query().spec_int_total() == old(self).spec_query().spec_int_total(),
    {
        self.vertex_query.insert_string(value, vertex_id);
    }

    /// Record an integer property for a vertex in the query facade; it
    /// becomes findable both exactly and by interval.
    pub fn index_vertex_int(&mut self, vertex_id: VertexId, value: i64)
        requires
            old(self).wf(),
            old(self).spec_query().spec_int_total() < usize::MAX,
        ensures
            final(self).wf(),
            final(self).spec_query().int_view() == multimap_insert(
                old(self).spec_query().int_view(),
                value,
                vertex_id,
            ),
            final(self).spec_query().string_view() == old(self).spec_query().string_view(),
            final(self).vertices_view() == old(self).vertices_view(),
            final(self).edges_view() == old(self).edges_view(),
    {
        self.vertex_query.insert_int(value, vertex_id);
    }

    /// Purge a vertex id from every index of the query facade at once:
    /// afterwards no string, integer or range lookup returns it.
    pub fn unindex_vertex(&mut self, vertex_id: VertexId)
        requires
            old(self).wf(),
        ensures
            final(self).wf(),
            final(self).spec_query().string_view() == multimap_purge(
                old(self).spec_query().string_view(),
                vertex_id,
            ),
            final(self).spec_query().int_view() == multimap_purge(
                old(self).spec_query().int_view(),
                vertex_id,
            ),
            final(self).spec_query().int_range_view() == multimap_purge(
                old(self).spec_query().int_view(),
                vertex_id,
            ),
            forall|lo: KeyBound<i64>, hi: KeyBound<i64>|
                !#[trigger] range_values(
                    final(self).spec_query().int_range_entries(),
                    lo,
                    hi,
                ).contains(vertex_id),
            final(self).vertices_view() == old(self).vertices_view(),
            final(self).edges_view() == old(self).edges_view(),
    {
        self.vertex_query.remove_vertex(vertex_id);
    }

    /// Total number of (key, id) pairs in the facade's integer indices;
    /// the bound `index_vertex_int` asks its callers to keep below
    /// `usize::MAX`.
    pub fn indexed_int_total(&self) -> (r: usize)
        requires
            self.wf(),
        ensures
            r == self.spec_query().spec_int_total(),
    {
        self.vertex_query.int_total()
    }
}

impl<Vertex, Edge> Default for SlotMapGraph<Vertex, Edge> {
    /// An empty graph.
    fn default() -> (r: Self)
        ensures
            r.wf(),
            r.vertices_view() == Map::<VertexId, Vertex>::empty(),
            r.edges_view() == Map::<EdgeId, (Edge, EdgeInfo)>::empty(),
            r.spec_vertex_count() == 0,
            r.spec_edge_count() == 0,
    {
        SlotMapGraph::new()
    }
}

} // verus!
