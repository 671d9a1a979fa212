//! The edge store: a generational slot container whose slots hold an edge
//! payload together with its connectivity record, handing out [`EdgeId`]s
//! and answering the adjacency queries.
//!
//! No secondary adjacency index is kept: the adjacency queries are exact
//! filters over the full edge set, trading O(E) scans for O(1) insertion
//! and removal.

use vstd::prelude::*;

use super::container::{listed_values, Container};
use crate::id::{EdgeId, EdgeInfo, VertexId};
use crate::key::SlotKey;

verus! {

/// A direction-aware filter over connectivity records; the common core of
/// all adjacency queries.
enum EdgeFilter {
    /// Edges leaving the vertex.
    From(VertexId),
    /// Edges entering the vertex.
    To(VertexId),
    /// Edges touching the vertex at either end.
    Involving(VertexId),
    /// Edges going from the first vertex to the second; directed.
    Between(VertexId, VertexId),
}

spec fn filter_matches(f: EdgeFilter, info: EdgeInfo) -> bool {
    match f {
        EdgeFilter::From(v) => info.from == v,
        EdgeFilter::To(v) => info.to == v,
        EdgeFilter::Involving(v) => info.from == v || info.to == v,
        EdgeFilter::Between(a, b) => info.from == a && info.to == b,
    }
}

/// Storage for edges. The view `self@` maps each live [`EdgeId`] to the
/// pair of its payload and its connectivity record; the record's own
/// `edge_id` always equals the id it is stored under (the store assigns
/// it on insertion). `dead(id)` marks ids that can never resolve again.
#[derive(Debug)]
pub struct EdgeContainer<E> {
    data: Container<(E, EdgeInfo)>,
}

impl<E> EdgeContainer<E> {
    /// Internal well-formedness, established by the constructors and
    /// preserved by every operation.
    pub closed spec fn wf(&self) -> bool {
        &&& self.data.wf()
        &&& forall|k: SlotKey|
            #[trigger] self.data@.dom().contains(k) ==> self.data@[k].1.edge_id == EdgeId(k)
    }

    /// The live edges with their connectivity records.
    pub closed spec fn view(&self) -> Map<EdgeId, (E, EdgeInfo)> {
        Map::new(
            |id: EdgeId| self.data@.dom().contains(id.0),
            |id: EdgeId| self.data@[id.0],
        )
    }

    /// Number of live edges.
    pub closed spec fn spec_len(&self) -> nat {
        self.data.spec_len()
    }

    /// An id that can never resolve again; every operation preserves this,
    /// and `remove` establishes it for the removed id.
    pub closed spec fn dead(&self, id: EdgeId) -> bool {
        self.data.dead(id.0)
    }

    /// A stored record names the id it is stored under.
    pub proof fn lemma_record_names_own_id(&self, id: EdgeId)
        requires
            self.wf(),
            self@.dom().contains(id),
        ensures
            self@[id].1.edge_id == id,
    {
    }

    /// Generational safety: a dead id does not resolve.
    pub proof fn lemma_generational_safety(&self, id: EdgeId)
        requires
            self.wf(),
            self.dead(id),
        ensures
            !self@.dom().contains(id),
    {
        self.data.lemma_generational_safety(id.0);
    }

    /// The default id never resolves.
    pub proof fn lemma_default_id_not_live(&self)
        requires
            self.wf(),
        ensures
            !self@.dom().contains(EdgeId(SlotKey { index: 0, generation: 0 })),
    {
        self.data.lemma_default_key_not_live();
    }

    /// An empty edge store.
    pub fn new() -> (r: Self)
        ensures
            r.wf(),
            r@ == Map::<EdgeId, (E, EdgeInfo)>::empty(),
            r.spec_len() == 0,
    {
        let r = EdgeContainer { data: Container::new() };
        proof {
            assert(r@ =~= Map::<EdgeId, (E, EdgeInfo)>::empty());
        }
        r
    }

    /// An empty edge store with space reserved for `capacity` edges.
    pub fn with_capacity(capacity: usize) -> (r: Self)
        ensures
            r.wf(),
            r@ == Map::<EdgeId, (E, EdgeInfo)>::empty(),
            r.spec_len() == 0,
    {
        let r = EdgeContainer { data: Container::with_capacity(capacity) };
        proof {
            assert(r@ =~= Map::<EdgeId, (E, EdgeInfo)>::empty());
        }
        r
    }

    /// Store an edge from `from` to `to` and return its fresh id. The
    /// stored connectivity record carries the returned id and the two
    /// endpoints. The store does not check that the endpoints are live:
    /// that referential integrity belongs to the owning graph.
    pub fn insert(&mut self, edge: E, from: VertexId, to: VertexId) -> (r: EdgeId)
        requires
            old(self).wf(),
        ensures
            final(self).wf(),
            !old(self)@.dom().contains(r),
            final(self)@ == old(self)@.insert(r, (edge, EdgeInfo { edge_id: r, from, to })),
            final(self).spec_len() == old(self).spec_len() + 1,
            r.0.generation >= 1,
            forall|id: EdgeId| old(self).dead(id) ==> final(self).dead(id),
    {
        let k = self.data.insert((edge, EdgeInfo::new(EdgeId::default(), from, to)));
        let id = EdgeId::new(k);
        if let Some(p) = self.data.get_mut(k) {
            p.1 = EdgeInfo { edge_id: id, from, to };
        }
        proof {
            assert(final(self)@ =~= old(self)@.insert(
                id,
                (edge, EdgeInfo { edge_id: id, from, to }),
            ));
        }
        id
    }

    /// The payload for `id`, or `None` when the id is stale or unknown.
    pub fn get(&self, id: EdgeId) -> (r: Option<&E>)
        requires
            self.wf(),
        ensures
            match r {
                Some(v) => self@.dom().contains(id) && *v == self@[id].0,
                None => !self@.dom().contains(id),
            },
    {
        match self.data.get(id.0) {
            Some(p) => Some(&p.0),
            None => None,
        }
    }

    /// Exclusive access to the payload for `id`. The connectivity record
    /// is immutable: only the payload can change.
    pub fn get_mut(&mut self, id: EdgeId) -> (r: Option<&mut E>)
        requires
            old(self).wf(),
        ensures
            final(self).wf(),
            final(self).spec_len() == old(self).spec_len(),
            forall|id2: EdgeId| old(self).dead(id2) ==> final(self).dead(id2),
            match r {
                Some(v) => {
                    &&& old(self)@.dom().contains(id)
                    &&& *v == old(self)@[id].0
                    &&& final(self)@.dom().contains(id)
                    &&& final(self)@[id].0 == *final(v)
                    &&& final(self)@[id].1 == old(self)@[id].1
                    &&& forall|id2: EdgeId|
                        #[trigger] final(self)@.dom().contains(id2)
                            <==> old(self)@.dom().contains(id2)
                    &&& forall|id2: EdgeId|
                        id2 != id && old(self)@.dom().contains(id2)
                            ==> #[trigger] final(self)@[id2] == old(self)@[id2]
                },
                None => {
                    &&& !old(self)@.dom().contains(id)
                    &&& final(self)@ == old(self)@
                },
            },
    {
        match self.data.get_mut(id.0) {
            Some(p) => Some(&mut p.0),
            None => None,
        }
    }

    /// The connectivity record for `id`; its `edge_id` is `id` itself.
    pub fn get_connection(&self, id: EdgeId) -> (r: Option<&EdgeInfo>)
        requires
            self.wf(),
        ensures
            match r {
                Some(ci) => self@.dom().contains(id) && *ci == self@[id].1 && ci.edge_id == id,
                None => !self@.dom().contains(id),
            },
    {
        match self.data.get(id.0) {
            Some(p) => Some(&p.1),
            None => None,
        }
    }

    /// Remove the edge for `id`, returning its payload and record when
    /// `id` was live. A removed id is dead: it never resolves again. A
    /// stale or unknown id changes nothing.
    pub fn remove(&mut self, id: EdgeId) -> (r: Option<(E, EdgeInfo)>)
        requires
            old(self).wf(),
        ensures
            final(self).wf(),
            match r {
                Some(p) => {
                    &&& old(self)@.dom().contains(id)
                    &&& p == old(self)@[id]
                    &&& final(self)@ == old(self)@.remove(id)
                    &&& final(self).spec_len() + 1 == old(self).spec_len()
                    &&& final(self).dead(id)
                },
                None => {
                    &&& !old(self)@.dom().contains(id)
                    &&& final(self)@ == old(self)@
                    &&& final(self).spec_len() == old(self).spec_len()
                },
            },
            forall|id2: EdgeId| old(self).dead(id2) ==> final(self).dead(id2),
    {
        let r = self.data.remove(id.0);
        proof {
            if r is Some {
                assert(final(self)@ =~= old(self)@.remove(id));
            } else {
                assert(final(self)@ =~= old(self)@);
            }
        }
        r
    }

    /// True iff `id` resolves to a live edge.
    pub fn contains(&self, id: EdgeId) -> (r: bool)
        requires
            self.wf(),
        ensures
            r == self@.dom().contains(id),
    {
        self.data.contains(id.0)
    }

    /// Number of live edges.
    pub fn len(&self) -> (r: usize)
        requires
            self.wf(),
        ensures
            r == self.spec_len(),
    {
        self.data.len()
    }

    /// True iff the store holds no edge.
    pub fn is_empty(&self) -> (r: bool)
        requires
            self.wf(),
        ensures
            r == (self.spec_len() == 0),
            r ==> self@ == Map::<EdgeId, (E, EdgeInfo)>::empty(),
    {
        let r = self.data.is_empty();
        proof {
            if r {
                assert(self@ =~= Map::<EdgeId, (E, EdgeInfo)>::empty());
            }
        }
        r
    }

    /// Drop every edge, bumping slot generations so that every id that
    /// was live before the call is dead after it.
    pub fn clear(&mut self)
        requires
            old(self).wf(),
        ensures
            final(self).wf(),
            final(self)@ == Map::<EdgeId, (E, EdgeInfo)>::empty(),
            final(self).spec_len() == 0,
            forall|id: EdgeId| old(self).dead(id) ==> final(self).dead(id),
            forall|id: EdgeId| old(self)@.dom().contains(id) ==> final(self).dead(id),
    {
        self.data.clear();
        proof {
            assert(final(self)@ =~= Map::<EdgeId, (E, EdgeInfo)>::empty());
        }
    }

    /// The ids of all live edges, in ascending slot order, each exactly
    /// once.
    pub fn keys(&self) -> (r: Vec<EdgeId>)
        requires
            self.wf(),
        ensures
            r@.len() == self.spec_len(),
            forall|j: int| 0 <= j < r@.len() ==> self@.dom().contains(#[trigger] r@[j]),
            forall|id: EdgeId| #[trigger] self@.dom().contains(id) ==> r@.contains(id),
            forall|j1: int, j2: int| 0 <= j1 < j2 < r@.len() ==> r@[j1].0.index < r@[j2].0.index,
    {
        let ks = self.data.keys();
        let n = ks.len();
        let mut r: Vec<EdgeId> = Vec::new();
        let mut j: usize = 0;
        while j < n
            invariant
                n == ks@.len(),
                j <= n,
                r@.len() == j,
                forall|t: int| 0 <= t < j ==> #[trigger] r@[t] == EdgeId(ks@[t]),
                forall|t: int| 0 <= t < n ==> self.data@.dom().contains(#[trigger] ks@[t]),
                forall|t1: int, t2: int| 0 <= t1 < t2 < n ==> ks@[t1].index < ks@[t2].index,
            decreases n - j,
        {
            let k = ks[j];
            r.push(EdgeId::new(k));
            j = j + 1;
        }
        proof {
            assert forall|id: EdgeId| #[trigger] self@.dom().contains(id) implies r@.contains(
                id,
            ) by {
                assert(ks@.contains(id.0));
                let t = choose|t: int| 0 <= t < ks@.len() && ks@[t] == id.0;
                assert(r@[t] == id);
            }
        }
        r
    }

    /// The live edges' payloads by id: the view with the connectivity
    /// records projected away.
    pub open spec fn payloads(&self) -> Map<EdgeId, E> {
        self@.map_values(|p: (E, EdgeInfo)| p.0)
    }

    /// References to the payloads of all live edges, in slot order:
    /// exactly one payload per live id.
    pub fn values(&self) -> (r: Vec<&E>)
        requires
            self.wf(),
        ensures
            r@.len() == self.spec_len(),
            exists|ks: Seq<EdgeId>, vs: Seq<E>|
                #[trigger] listed_values(self.payloads(), ks, vs) && vs == r@.map_values(
                    |v: &E| *v,
                ),
    {
        let ps = self.data.iter();
        let n = ps.len();
        let mut r: Vec<&E> = Vec::new();
        let mut j: usize = 0;
        while j < n
            invariant
                n == ps@.len(),
                j <= n,
                r@.len() == j,
                forall|t: int| 0 <= t < j ==> #[trigger] r@[t] == &ps@[t].1.0,
                forall|t: int|
                    0 <= t < n ==> self.data@.dom().contains(#[trigger] ps@[t].0) && *ps@[t].1
                        == self.data@[ps@[t].0],
                forall|t1: int, t2: int| 0 <= t1 < t2 < n ==> ps@[t1].0.index < ps@[t2].0.index,
            decreases n - j,
        {
            let p = ps[j];
            r.push(&p.1.0);
            j = j + 1;
        }
        proof {
            let ks = ps@.map_values(|p: (SlotKey, &(E, EdgeInfo))| EdgeId(p.0));
            let vs = r@.map_values(|v: &E| *v);
            assert forall|j1: int, j2: int|
                0 <= j1 < ks.len() && 0 <= j2 < ks.len() && j1 != j2 implies ks[j1] != ks[j2] by {
                if j1 < j2 {
                    assert(ps@[j1].0.index < ps@[j2].0.index);
                } else {
                    assert(ps@[j2].0.index < ps@[j1].0.index);
                }
            }
            assert forall|j: int| 0 <= j < ks.len() implies self.payloads().dom().contains(
                #[trigger] ks[j],
            ) && vs[j] == self.payloads()[ks[j]] by {
                assert(ks[j] == EdgeId(ps@[j].0) && vs[j] == *r@[j]);
                assert(self@.dom().contains(EdgeId(ps@[j].0)));
                assert(self@[EdgeId(ps@[j].0)].0 == *r@[j]);
            }
            assert forall|k: EdgeId| #[trigger] self.payloads().dom().contains(k) implies ks.contains(
                k,
            ) by {
                assert(self@.dom().contains(k));
                let t = choose|t: int| 0 <= t < ps@.len() && ps@[t].0 == k.0;
                assert(ks[t] == k);
            }
            assert(listed_values(self.payloads(), ks, vs));
        }
        r
    }

    /// The live edges as (id, payload reference) pairs, in ascending slot
    /// order; every live id appears exactly once.
    pub fn iter(&self) -> (r: Vec<(EdgeId, &E)>)
        requires
            self.wf(),
        ensures
            r@.len() == self.spec_len(),
            forall|j: int|
                0 <= j < r@.len() ==> self@.dom().contains(#[trigger] r@[j].0) && *r@[j].1
                    == self@[r@[j].0].0,
            forall|id: EdgeId|
                #[trigger] self@.dom().contains(id) ==> exists|j: int|
                    0 <= j < r@.len() && r@[j].0 == id,
            forall|j1: int, j2: int|
                0 <= j1 < j2 < r@.len() ==> r@[j1].0.0.index < r@[j2].0.0.index,
    {
        let ps = self.data.iter();
        let n = ps.len();
        let mut r: Vec<(EdgeId, &E)> = Vec::new();
        let mut j: usize = 0;
        while j < n
            invariant
                n == ps@.len(),
                j <= n,
                r@.len() == j,
                forall|t: int|
                    0 <= t < j ==> #[trigger] r@[t] == (EdgeId(ps@[t].0), &ps@[t].1.0),
                forall|t: int|
                    0 <= t < n ==> self.data@.dom().contains(#[trigger] ps@[t].0) && *ps@[t].1
                        == self.data@[ps@[t].0],
                forall|t1: int, t2: int| 0 <= t1 < t2 < n ==> ps@[t1].0.index < ps@[t2].0.index,
            decreases n - j,
        {
            let p = ps[j];
            r.push((EdgeId::new(p.0), &p.1.0));
            j = j + 1;
        }
        proof {
            assert forall|id: EdgeId| #[trigger] self@.dom().contains(id) implies exists|j: int|
                0 <= j < r@.len() && r@[j].0 == id by {
                let t = choose|t: int| 0 <= t < ps@.len() && #[trigger] ps@[t].0 == id.0;
                assert(r@[t].0 == id);
            }
        }
        r
    }

    /// The live edges as (id, payload, record) triples, in ascending slot
    /// order; every live id appears exactly once, and each record carries
    /// the id it stands beside.
    pub fn iter_with_connections(&self) -> (r: Vec<(EdgeId, &E, &EdgeInfo)>)
        requires
            self.wf(),
        ensures
            r@.len() == self.spec_len(),
            forall|j: int|
                0 <= j < r@.len() ==> self@.dom().contains(#[trigger] r@[j].0) && *r@[j].1
                    == self@[r@[j].0].0 && *r@[j].2 == self@[r@[j].0].1,
            forall|id: EdgeId|
                #[trigger] self@.dom().contains(id) ==> exists|j: int|
                    0 <= j < r@.len() && r@[j].0 == id,
            forall|j1: int, j2: int|
                0 <= j1 < j2 < r@.len() ==> r@[j1].0.0.index < r@[j2].0.0.index,
    {
        let ps = self.data.iter();
        let n = ps.len();
        let mut r: Vec<(EdgeId, &E, &EdgeInfo)> = Vec::new();
        let mut j: usize = 0;
        while j < n
            invariant
                n == ps@.len(),
                j <= n,
                r@.len() == j,
                forall|t: int|
                    0 <= t < j ==> #[trigger] r@[t] == (EdgeId(ps@[t].0), &ps@[t].1.0, &ps@[t].1.1),
                forall|t: int|
                    0 <= t < n ==> self.data@.dom().contains(#[trigger] ps@[t].0) && *ps@[t].1
                        == self.data@[ps@[t].0],
                forall|t1: int, t2: int| 0 <= t1 < t2 < n ==> ps@[t1].0.index < ps@[t2].0.index,
            decreases n - j,
        {
            let p = ps[j];
            r.push((EdgeId::new(p.0), &p.1.0, &p.1.1));
            j = j + 1;
        }
        proof {
            assert forall|id: EdgeId| #[trigger] self@.dom().contains(id) implies exists|j: int|
                0 <= j < r@.len() && r@[j].0 == id by {
                let t = choose|t: int| 0 <= t < ps@.len() && #[trigger] ps@[t].0 == id.0;
                assert(r@[t].0 == id);
            }
        }
        r
    }

    /// The shared scan behind the adjacency queries: the ids of exactly
    /// the edges whose record matches the filter, in ascending slot order,
    /// each once.
    fn edges_matching(&self, f: EdgeFilter) -> (r: Vec<EdgeId>)
        requires
            self.wf(),
        ensures
            forall|j: int|
                0 <= j < r@.len() ==> self@.dom().contains(#[trigger] r@[j]) && filter_matches(
                    f,
                    self@[r@[j]].1,
                ),
            forall|id: EdgeId|
                #[trigger] self@.dom().contains(id) && filter_matches(f, self@[id].1)
                    ==> r@.contains(id),
            forall|j1: int, j2: int| 0 <= j1 < j2 < r@.len() ==> r@[j1].0.index < r@[j2].0.index,
            r@.no_duplicates(),
    {
        let ps = self.data.iter();
        let n = ps.len();
        let mut r: Vec<EdgeId> = Vec::new();
        let mut j: usize = 0;
        while j < n
            invariant
                self.wf(),
                n == ps@.len(),
                j <= n,
                forall|t: int|
                    0 <= t < n ==> self.data@.dom().contains(#[trigger] ps@[t].0) && *ps@[t].1
                        == self.data@[ps@[t].0],
                forall|t1: int, t2: int| 0 <= t1 < t2 < n ==> ps@[t1].0.index < ps@[t2].0.index,
                forall|s: int|
                    0 <= s < r@.len() ==> self@.dom().contains(#[trigger] r@[s])
                        && filter_matches(f, self@[r@[s]].1) && (r@[s].0.index as int) < (if j < n {
                        ps@[j as int].0.index as int
                    } else {
                        ps@[n - 1].0.index + 1
                    }),
                forall|t: int|
                    0 <= t < j && filter_matches(f, #[trigger] self.data@[ps@[t].0].1)
                        ==> r@.contains(EdgeId(ps@[t].0)),
                forall|s1: int, s2: int| 0 <= s1 < s2 < r@.len() ==> r@[s1].0.index < r@[s2].0.index,
            decreases n - j,
        {
            let p = ps[j];
            let info = &p.1.1;
            let hit = match f {
                EdgeFilter::From(v) => info.connects_from(v),
                EdgeFilter::To(v) => info.connects_to(v),
                EdgeFilter::Involving(v) => info.involves(v),
                EdgeFilter::Between(a, b) => info.connects(a, b),
            };
            let ghost r0 = r@;
            if hit {
                r.push(EdgeId::new(p.0));
            }
            proof {
                assert forall|t: int|
                    0 <= t < j + 1 && filter_matches(f, #[trigger] self.data@[ps@[t].0].1) implies r@.contains(
                    EdgeId(ps@[t].0),
                ) by {
                    if t < j {
                        let s = choose|s: int| 0 <= s < r0.len() && r0[s] == EdgeId(ps@[t].0);
                        assert(r@[s] == EdgeId(ps@[t].0));
                    } else {
                        assert(r@[r@.len() - 1] == EdgeId(ps@[t].0));
                    }
                }
            }
            j = j + 1;
        }
        proof {
            assert forall|id: EdgeId|
                #[trigger] self@.dom().contains(id) && filter_matches(f, self@[id].1) implies r@.contains(
                id,
            ) by {
                let t = choose|t: int| 0 <= t < ps@.len() && #[trigger] ps@[t].0 == id.0;
                assert(filter_matches(f, self.data@[ps@[t].0].1));
            }
            assert forall|s1: int, s2: int|
                0 <= s1 < r@.len() && 0 <= s2 < r@.len() && s1 != s2 implies r@[s1] != r@[s2] by {
                if s1 < s2 {
                    assert(r@[s1].0.index < r@[s2].0.index);
                } else {
                    assert(r@[s2].0.index < r@[s1].0.index);
                }
            }
        }
        r
    }

    /// The ids of all edges leaving `vertex_id`, in slot order.
    pub fn edges_from(&self, vertex_id: VertexId) -> (r: Vec<EdgeId>)
        requires
            self.wf(),
        ensures
            forall|j: int|
                0 <= j < r@.len() ==> self@.dom().contains(#[trigger] r@[j]) && self@[r@[j]].1.from
                    == vertex_id,
            forall|id: EdgeId|
                #[trigger] self@.dom().contains(id) && self@[id].1.from == vertex_id
                    ==> r@.contains(id),
            forall|j1: int, j2: int| 0 <= j1 < j2 < r@.len() ==> r@[j1].0.index < r@[j2].0.index,
            r@.no_duplicates(),
    {
        self.edges_matching(EdgeFilter::From(vertex_id))
    }

    /// The ids of all edges entering `vertex_id`, in slot order.
    pub fn edges_to(&self, vertex_id: VertexId) -> (r: Vec<EdgeId>)
        requires
            self.wf(),
        ensures
            forall|j: int|
                0 <= j < r@.len() ==> self@.dom().contains(#[trigger] r@[j]) && self@[r@[j]].1.to
                    == vertex_id,
            forall|id: EdgeId|
                #[trigger] self@.dom().contains(id) && self@[id].1.to == vertex_id
                    ==> r@.contains(id),
            forall|j1: int, j2: int| 0 <= j1 < j2 < r@.len() ==> r@[j1].0.index < r@[j2].0.index,
            r@.no_duplicates(),
    {
        self.edges_matching(EdgeFilter::To(vertex_id))
    }

    /// The ids of all edges touching `vertex_id` at either end, in slot
    /// order.
    pub fn edges_involving(&self, vertex_id: VertexId) -> (r: Vec<EdgeId>)
        requires
            self.wf(),
        ensures
            forall|j: int|
                0 <= j < r@.len() ==> self@.dom().contains(#[trigger] r@[j]) && (self@[r@[j]].1.from == vertex_id || self@[r@[j]].1.to == vertex_id),
            forall|id: EdgeId|
                #[trigger] self@.dom().contains(id) && (self@[id].1.from == vertex_id
                    || self@[id].1.to == vertex_id) ==> r@.contains(id),
            forall|j1: int, j2: int| 0 <= j1 < j2 < r@.len() ==> r@[j1].0.index < r@[j2].0.index,
            r@.no_duplicates(),
    {
        self.edges_matching(EdgeFilter::Involving(vertex_id))
    }

    /// Same as [`Self::edges_involving`]: the edges adjacent to a vertex,
    /// in either direction.
    pub fn edges_adjacent(&self, vertex_id: VertexId) -> (r: Vec<EdgeId>)
        requires
            self.wf(),
        ensures
            forall|j: int|
                0 <= j < r@.len() ==> self@.dom().contains(#[trigger] r@[j]) && (self@[r@[j]].1.from == vertex_id || self@[r@[j]].1.to == vertex_id),
            forall|id: EdgeId|
                #[trigger] self@.dom().contains(id) && (self@[id].1.from == vertex_id
                    || self@[id].1.to == vertex_id) ==> r@.contains(id),
            forall|j1: int, j2: int| 0 <= j1 < j2 < r@.len() ==> r@[j1].0.index < r@[j2].0.index,
            r@.no_duplicates(),
    {
        self.edges_matching(EdgeFilter::Involving(vertex_id))
    }

    /// The ids of all edges going from `from` to `to`, in slot order;
    /// directed, so edges from `to` to `from` are not included.
    pub fn edges_between(&self, from: VertexId, to: VertexId) -> (r: Vec<EdgeId>)
        requires
            self.wf(),
        ensures
            forall|j: int|
                0 <= j < r@.len() ==> self@.dom().contains(#[trigger] r@[j]) && self@[r@[j]].1.from
                    == from && self@[r@[j]].1.to == to,
            forall|id: EdgeId|
                #[trigger] self@.dom().contains(id) && self@[id].1.from == from && self@[id].1.to
                    == to ==> r@.contains(id),
            forall|j1: int, j2: int| 0 <= j1 < j2 < r@.len() ==> r@[j1].0.index < r@[j2].0.index,
            r@.no_duplicates(),
    {
        self.edges_matching(EdgeFilter::Between(from, to))
    }

    /// True iff some edge goes from `from` to `to`; directed.
    pub fn has_edge_between(&self, from: VertexId, to: VertexId) -> (r: bool)
        requires
            self.wf(),
        ensures
            r == exists|id: EdgeId|
                #[trigger] self@.dom().contains(id) && self@[id].1.from == from && self@[id].1.to
                    == to,
    {
        let es = self.edges_matching(EdgeFilter::Between(from, to));
        let r = es.len() > 0;
        proof {
            if r {
                assert(self@.dom().contains(es@[0]) && self@[es@[0]].1.from == from && self@[es@[0]].1.to == to);
            } else {
                assert forall|id: EdgeId|
                    #[trigger] self@.dom().contains(id) && self@[id].1.from == from && self@[id].1.to == to implies false by {
                    assert(es@.contains(id));
                }
            }
        }
        r
    }

    /// Some edge going from `from` to `to` (the one in the lowest slot),
    /// or `None` when there is none.
    pub fn get_edge_between(&self, from: VertexId, to: VertexId) -> (r: Option<EdgeId>)
        requires
            self.wf(),
        ensures
            match r {
                Some(id) => self@.dom().contains(id) && self@[id].1.from == from && self@[id].1.to
                    == to,
                None => !exists|id: EdgeId|
                    #[trigger] self@.dom().contains(id) && self@[id].1.from == from && self@[id].1.to == to,
            },
    {
        let es = self.edges_matching(EdgeFilter::Between(from, to));
        if es.len() > 0 {
            Some(es[0])
        } else {
            proof {
                assert forall|id: EdgeId|
                    #[trigger] self@.dom().contains(id) && self@[id].1.from == from && self@[id].1.to == to implies false by {
                    assert(es@.contains(id));
                }
            }
            None
        }
    }
}

} // verus!
