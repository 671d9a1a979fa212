//! The vertex store: a generational slot container specialised to vertex
//! payloads, handing out [`VertexId`]s.

use vstd::prelude::*;

use super::container::{listed_values, Container};
use crate::id::VertexId;
use crate::key::SlotKey;

verus! {

/// Storage for vertices. The view `self@` maps each live [`VertexId`] to
/// its payload; `dead(id)` marks ids that can never resolve again (see
/// [`Container`]).
#[derive(Debug)]
pub struct VertexContainer<V> {
    data: Container<V>,
}

impl<V> VertexContainer<V> {
    /// Internal well-formedness, established by the constructors and
    /// preserved by every operation.
    pub closed spec fn wf(&self) -> bool {
        self.data.wf()
    }

    /// The live vertices.
    pub closed spec fn view(&self) -> Map<VertexId, V> {
        Map::new(
            |id: VertexId| self.data@.dom().contains(id.0),
            |id: VertexId| self.data@[id.0],
        )
    }

    /// Number of live vertices.
    pub closed spec fn spec_len(&self) -> nat {
        self.data.spec_len()
    }

    /// An id that can never resolve again; every operation preserves this,
    /// and `remove` establishes it for the removed id.
    pub closed spec fn dead(&self, id: VertexId) -> bool {
        self.data.dead(id.0)
    }

    /// Generational safety: a dead id does not resolve.
    pub proof fn lemma_generational_safety(&self, id: VertexId)
        requires
            self.wf(),
            self.dead(id),
        ensures
            !self@.dom().contains(id),
    {
        self.data.lemma_generational_safety(id.0);
    }

    /// The default id never resolves.
    pub proof fn lemma_default_id_not_live(&self)
        requires
            self.wf(),
        ensures
            !self@.dom().contains(VertexId(SlotKey { index: 0, generation: 0 })),
    {
        self.data.lemma_default_key_not_live();
    }

    /// An empty vertex store.
    pub fn new() -> (r: Self)
        ensures
            r.wf(),
            r@ == Map::<VertexId, V>::empty(),
            r.spec_len() == 0,
    {
        let r = VertexContainer { data: Container::new() };
        proof {
            assert(r@ =~= Map::<VertexId, V>::empty());
        }
        r
    }

    /// An empty vertex store with space reserved for `capacity` vertices.
    pub fn with_capacity(capacity: usize) -> (r: Self)
        ensures
            r.wf(),
            r@ == Map::<VertexId, V>::empty(),
            r.spec_len() == 0,
    {
        let r = VertexContainer { data: Container::with_capacity(capacity) };
        proof {
            assert(r@ =~= Map::<VertexId, V>::empty());
        }
        r
    }

    /// Store a vertex and return its fresh id: the id did not resolve
    /// before the call, and it is never the default id.
    pub fn insert(&mut self, vertex: V) -> (r: VertexId)
        requires
            old(self).wf(),
        ensures
            final(self).wf(),
            !old(self)@.dom().contains(r),
            final(self)@ == old(self)@.insert(r, vertex),
            final(self).spec_len() == old(self).spec_len() + 1,
            r.0.generation >= 1,
            forall|id: VertexId| old(self).dead(id) ==> final(self).dead(id),
    {
        let k = self.data.insert(vertex);
        let r = VertexId::new(k);
        proof {
            assert(final(self)@ =~= old(self)@.insert(r, vertex));
        }
        r
    }

    /// The payload for `id`, or `None` when the id is stale, unknown or
    /// the default.
    pub fn get(&self, id: VertexId) -> (r: Option<&V>)
        requires
            self.wf(),
        ensures
            match r {
                Some(v) => self@.dom().contains(id) && *v == self@[id],
                None => !self@.dom().contains(id),
            },
    {
        self.data.get(id.0)
    }

    /// Exclusive access to the payload for `id`; the caller may overwrite
    /// it in place, and nothing else changes.
    pub fn get_mut(&mut self, id: VertexId) -> (r: Option<&mut V>)
        requires
            old(self).wf(),
        ensures
            final(self).wf(),
            final(self).spec_len() == old(self).spec_len(),
            forall|id2: VertexId| old(self).dead(id2) ==> final(self).dead(id2),
            match r {
                Some(v) => {
                    &&& old(self)@.dom().contains(id)
                    &&& *v == old(self)@[id]
                    &&& final(self)@.dom().contains(id)
                    &&& final(self)@[id] == *final(v)
                    &&& forall|id2: VertexId|
                        #[trigger] final(self)@.dom().contains(id2)
                            <==> old(self)@.dom().contains(id2)
                    &&& forall|id2: VertexId|
                        id2 != id && old(self)@.dom().contains(id2)
                            ==> #[trigger] final(self)@[id2] == old(self)@[id2]
                },
                None => {
                    &&& !old(self)@.dom().contains(id)
                    &&& final(self)@ == old(self)@
                },
            },
    {
        self.data.get_mut(id.0)
    }

    /// Remove the vertex for `id`, returning its payload when `id` was
    /// live. A removed id is dead: it never resolves again, even when its
    /// slot is reused. A stale or unknown id changes nothing.
    pub fn remove(&mut self, id: VertexId) -> (r: Option<V>)
        requires
            old(self).wf(),
        ensures
            final(self).wf(),
            match r {
                Some(v) => {
                    &&& old(self)@.dom().contains(id)
                    &&& v == old(self)@[id]
                    &&& final(self)@ == old(self)@.remove(id)
                    &&& final(self).spec_len() + 1 == old(self).spec_len()
                    &&& final(self).dead(id)
                },
                None => {
                    &&& !old(self)@.dom().contains(id)
                    &&& final(self)@ == old(self)@
                    &&& final(self).spec_len() == old(self).spec_len()
                },
            },
            forall|id2: VertexId| old(self).dead(id2) ==> final(self).dead(id2),
    {
        let r = self.data.remove(id.0);
        proof {
            if r is Some {
                assert(final(self)@ =~= old(self)@.remove(id));
            } else {
                assert(final(self)@ =~= old(self)@);
            }
        }
        r
    }

    /// True iff `id` resolves to a live vertex.
    pub fn contains(&self, id: VertexId) -> (r: bool)
        requires
            self.wf(),
        ensures
            r == self@.dom().contains(id),
    {
        self.data.contains(id.0)
    }

    /// Number of live vertices.
    pub fn len(&self) -> (r: usize)
        requires
            self.wf(),
        ensures
            r == self.spec_len(),
    {
        self.data.len()
    }

    /// True iff the store holds no vertex.
    pub fn is_empty(&self) -> (r: bool)
        requires
            self.wf(),
        ensures
            r == (self.spec_len() == 0),
            r ==> self@ == Map::<VertexId, V>::empty(),
    {
        let r = self.data.is_empty();
        proof {
            if r {
                assert(self@ =~= Map::<VertexId, V>::empty());
            }
        }
        r
    }

    /// Drop every vertex, bumping slot generations so that every id that
    /// was live before the call is dead after it.
    pub fn clear(&mut self)
        requires
            old(self).wf(),
        ensures
            final(self).wf(),
            final(self)@ == Map::<VertexId, V>::empty(),
            final(self).spec_len() == 0,
            forall|id: VertexId| old(self).dead(id) ==> final(self).dead(id),
            forall|id: VertexId| old(self)@.dom().contains(id) ==> final(self).dead(id),
    {
        self.data.clear();
        proof {
            assert(final(self)@ =~= Map::<VertexId, V>::empty());
        }
    }

    /// The ids of all live vertices, in ascending slot order, each exactly
    /// once.
    pub fn keys(&self) -> (r: Vec<VertexId>)
        requires
            self.wf(),
        ensures
            r@.len() == self.spec_len(),
            forall|j: int| 0 <= j < r@.len() ==> self@.dom().contains(#[trigger] r@[j]),
            forall|id: VertexId| #[trigger] self@.dom().contains(id) ==> r@.contains(id),
            forall|j1: int, j2: int| 0 <= j1 < j2 < r@.len() ==> r@[j1].0.index < r@[j2].0.index,
    {
        let ks = self.data.keys();
        let n = ks.len();
        let mut r: Vec<VertexId> = Vec::new();
        let mut j: usize = 0;
        while j < n
            invariant
                n == ks@.len(),
                j <= n,
                r@.len() == j,
                forall|t: int| 0 <= t < j ==> #[trigger] r@[t] == VertexId(ks@[t]),
                forall|t: int| 0 <= t < n ==> self.data@.dom().contains(#[trigger] ks@[t]),
                forall|t1: int, t2: int| 0 <= t1 < t2 < n ==> ks@[t1].index < ks@[t2].index,
            decreases n - j,
        {
            let k = ks[j];
            r.push(VertexId::new(k));
            j = j + 1;
        }
        proof {
            assert forall|id: VertexId| #[trigger] self@.dom().contains(id) implies r@.contains(
                id,
            ) by {
                assert(ks@.contains(id.0));
                let t = choose|t: int| 0 <= t < ks@.len() && ks@[t] == id.0;
                assert(r@[t] == id);
            }
        }
        r
    }

    /// References to the payloads of all live vertices, in slot order:
    /// exactly one payload per live id.
    pub fn values(&self) -> (r: Vec<&V>)
        requires
            self.wf(),
        ensures
            r@.len() == self.spec_len(),
            exists|ks: Seq<VertexId>, vs: Seq<V>|
                #[trigger] listed_values(self@, ks, vs) && vs == r@.map_values(|v: &V| *v),
    {
        let ps = self.iter();
        let n = ps.len();
        let mut r: Vec<&V> = Vec::new();
        let mut j: usize = 0;
        while j < n
            invariant
                n == ps@.len(),
                j <= n,
                r@.len() == j,
                forall|t: int| 0 <= t < j ==> #[trigger] r@[t] == ps@[t].1,
                forall|t: int|
                    0 <= t < n ==> self@.dom().contains(#[trigger] ps@[t].0) && *ps@[t].1
                        == self@[ps@[t].0],
            decreases n - j,
        {
            r.push(ps[j].1);
            j = j + 1;
        }
        proof {
            let ks = ps@.map_values(|p: (VertexId, &V)| p.0);
            let vs = r@.map_values(|v: &V| *v);
            assert forall|j1: int, j2: int|
                0 <= j1 < ks.len() && 0 <= j2 < ks.len() && j1 != j2 implies ks[j1] != ks[j2] by {
                if j1 < j2 {
                    assert(ps@[j1].0.0.index < ps@[j2].0.0.index);
                } else {
                    assert(ps@[j2].0.0.index < ps@[j1].0.0.index);
                }
            }
            assert forall|j: int| 0 <= j < ks.len() implies self@.dom().contains(
                #[trigger] ks[j],
            ) && vs[j] == self@[ks[j]] by {
                assert(ks[j] == ps@[j].0 && vs[j] == *r@[j]);
            }
            assert forall|k: VertexId| #[trigger] self@.dom().contains(k) implies ks.contains(
                k,
            ) by {
                let t = choose|t: int| 0 <= t < ps@.len() && ps@[t].0 == k;
                assert(ks[t] == k);
            }
            assert(listed_values(self@, ks, vs));
        }
        r
    }

    /// The live vertices as (id, payload reference) pairs, in ascending
    /// slot order; every live id appears exactly once.
    pub fn iter(&self) -> (r: Vec<(VertexId, &V)>)
        requires
            self.wf(),
        ensures
            r@.len() == self.spec_len(),
            forall|j: int|
                0 <= j < r@.len() ==> self@.dom().contains(#[trigger] r@[j].0) && *r@[j].1
                    == self@[r@[j].0],
            forall|id: VertexId|
                #[trigger] self@.dom().contains(id) ==> exists|j: int|
                    0 <= j < r@.len() && r@[j].0 == id,
            forall|j1: int, j2: int|
                0 <= j1 < j2 < r@.len() ==> r@[j1].0.0.index < r@[j2].0.0.index,
    {
        let ps = self.data.iter();
        let n = ps.len();
        let mut r: Vec<(VertexId, &V)> = Vec::new();
        let mut j: usize = 0;
        while j < n
            invariant
                n == ps@.len(),
                j <= n,
                r@.len() == j,
                forall|t: int|
                    0 <= t < j ==> #[trigger] r@[t] == (VertexId(ps@[t].0), ps@[t].1),
                forall|t: int|
                    0 <= t < n ==> self.data@.dom().contains(#[trigger] ps@[t].0) && *ps@[t].1
                        == self.data@[ps@[t].0],
                forall|t1: int, t2: int| 0 <= t1 < t2 < n ==> ps@[t1].0.index < ps@[t2].0.index,
            decreases n - j,
        {
            let p = ps[j];
            r.push((VertexId::new(p.0), p.1));
            j = j + 1;
        }
        proof {
            assert forall|id: VertexId| #[trigger] self@.dom().contains(id) implies exists|j: int|
                0 <= j < r@.len() && r@[j].0 == id by {
                let t = choose|t: int| 0 <= t < ps@.len() && #[trigger] ps@[t].0 == id.0;
                assert(r@[t].0 == id);
            }
        }
        r
    }
}

} // verus!
