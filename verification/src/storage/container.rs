//! The generic generational slot container that backs both the vertex and
//! the edge store.
//!
//! A slot holds at most one value. Each slot carries a generation counter,
//! bumped every time the slot is vacated, and a handle is only honoured
//! while its generation matches the slot's current one. Vacated slots are
//! kept on a free list and reused by later insertions; a slot whose
//! generation counter is exhausted is retired instead of reused, so a
//! stale handle can never resolve to a later occupant.

use vstd::prelude::*;

use crate::key::SlotKey;

verus! {

/// Number of live entries in a slot sequence.
spec fn count_some<T>(s: Seq<Option<T>>) -> nat
    decreases s.len(),
{
    if s.len() == 0 {
        0
    } else {
        count_some(s.drop_last()) + if s.last() is Some {
            1nat
        } else {
            0nat
        }
    }
}

proof fn lemma_count_some_le_len<T>(s: Seq<Option<T>>)
    ensures
        count_some(s) <= s.len(),
    decreases s.len(),
{
    if s.len() > 0 {
        lemma_count_some_le_len(s.drop_last());
    }
}

proof fn lemma_count_some_skip_vacant<T>(s: Seq<Option<T>>, i: int)
    requires
        0 <= i < s.len(),
        s[i] is None,
    ensures
        count_some(s) <= s.len() - 1,
    decreases s.len(),
{
    if i == s.len() - 1 {
        lemma_count_some_le_len(s.drop_last());
    } else {
        lemma_count_some_skip_vacant(s.drop_last(), i);
    }
}

proof fn lemma_count_some_occupied<T>(s: Seq<Option<T>>, i: int)
    requires
        0 <= i < s.len(),
        s[i] is Some,
    ensures
        count_some(s) >= 1,
    decreases s.len(),
{
    if i < s.len() - 1 {
        lemma_count_some_occupied(s.drop_last(), i);
    }
}

proof fn lemma_count_some_update<T>(s: Seq<Option<T>>, i: int, v: Option<T>)
    requires
        0 <= i < s.len(),
    ensures
        count_some(s.update(i, v)) == count_some(s) + (if v is Some {
            1int
        } else {
            0int
        }) - (if s[i] is Some {
            1int
        } else {
            0int
        }),
    decreases s.len(),
{
    let t = s.update(i, v);
    if i == s.len() - 1 {
        assert(t.drop_last() =~= s.drop_last());
    } else {
        assert(t.drop_last() =~= s.drop_last().update(i, v));
        lemma_count_some_update(s.drop_last(), i, v);
        if s[i] is Some {
            lemma_count_some_occupied(s.drop_last(), i);
        }
    }
}

proof fn lemma_count_some_push<T>(s: Seq<Option<T>>, v: Option<T>)
    ensures
        count_some(s.push(v)) == count_some(s) + (if v is Some {
            1nat
        } else {
            0nat
        }),
{
    assert(s.push(v).drop_last() =~= s);
}

proof fn lemma_count_some_all_none<T>(s: Seq<Option<T>>)
    requires
        forall|i: int| 0 <= i < s.len() ==> s[i] is None,
    ensures
        count_some(s) == 0,
    decreases s.len(),
{
    if s.len() > 0 {
        lemma_count_some_all_none(s.drop_last());
    }
}

proof fn lemma_count_some_zero<T>(s: Seq<Option<T>>)
    requires
        count_some(s) == 0,
    ensures
        forall|i: int| 0 <= i < s.len() ==> s[i] is None,
    decreases s.len(),
{
    if s.len() > 0 {
        lemma_count_some_zero(s.drop_last());
        assert forall|i: int| 0 <= i < s.len() implies s[i] is None by {
            if i < s.len() - 1 {
                assert(s.drop_last()[i] is None);
            }
        }
    }
}

/// A type-erased storage key: the bare generational handle, without the
/// vertex/edge distinction the id types add.
#[derive(Debug, Clone, Copy, PartialEq, Eq, Hash, Structural)]
pub struct StorageKey(pub SlotKey);

impl StorageKey {
    /// Wrap a handle as a storage key.
    pub fn new(key: SlotKey) -> (r: Self)
        ensures
            r == (StorageKey(key)),
    {
        StorageKey(key)
    }

    /// The underlying handle.
    pub fn key(&self) -> (r: SlotKey)
        ensures
            r == self.0,
    {
        self.0
    }
}

/// A borrowed handle on a container, fixing the element type it is read
/// as; a starting point for caller-driven iteration.
pub struct ContainerIter<'a, T, C> {
    /// The container being iterated.
    pub container: &'a C,
    /// The element type the container is read as.
    pub element: core::marker::PhantomData<T>,
}

impl<'a, T, C> ContainerIter<'a, T, C> {
    /// Borrow a container for iteration.
    pub fn new(container: &'a C) -> (r: Self)
        ensures
            r.container == container,
    {
        ContainerIter { container, element: core::marker::PhantomData }
    }
}

/// A listing of a map's contents: `ks` names every key of `m` exactly
/// once, and `vs` holds the corresponding values position by position.
pub open spec fn listed_values<K, T>(m: Map<K, T>, ks: Seq<K>, vs: Seq<T>) -> bool {
    &&& ks.len() == vs.len()
    &&& ks.no_duplicates()
    &&& forall|j: int| 0 <= j < ks.len() ==> m.dom().contains(#[trigger] ks[j]) && vs[j] == m[ks[j]]
    &&& forall|k: K| #[trigger] m.dom().contains(k) ==> ks.contains(k)
}

/// A generational slot container: an array of optional payloads, a parallel
/// array of slot generations, and a free list of reusable vacant slots.
///
/// The contracts speak of three spec-level notions:
/// - the view `self@`, a map from live handles to their payloads;
/// - `spec_len()`, the number of live entries;
/// - `dead(k)`, which marks a handle as permanently unresolvable: every
///   operation preserves deadness, and `remove` makes the removed handle
///   dead, so a removed handle can never be observed again even when its
///   slot index is reused.
#[derive(Debug)]
pub struct Container<T> {
    slots: Vec<Option<T>>,
    gens: Vec<u64>,
    free: Vec<usize>,
    live: usize,
}

impl<T> Container<T> {
    /// Internal well-formedness: parallel arrays agree, the live counter
    /// matches the occupied slots, generations start at 1, occupied slots
    /// still have room to bump their generation, and the free list holds
    /// exactly reusable vacant slots, each at most once.
    pub closed spec fn wf(&self) -> bool {
        &&& self.gens@.len() == self.slots@.len()
        &&& self.live == count_some(self.slots@)
        &&& forall|i: int|
            0 <= i < self.slots@.len() ==> 1 <= #[trigger] self.gens@[i]
        &&& forall|i: int|
            0 <= i < self.slots@.len() && self.slots@[i] is Some ==> #[trigger] self.gens@[i]
                < u64::MAX
        &&& forall|j: int|
            0 <= j < self.free@.len() ==> {
                let i = #[trigger] self.free@[j] as int;
                &&& i < self.slots@.len()
                &&& self.slots@[i] is None
                &&& self.gens@[i] < u64::MAX
            }
        &&& self.free@.no_duplicates()
    }

    /// The live entries: a handle resolves iff its slot is occupied and the
    /// slot's generation still matches the handle's.
    pub closed spec fn view(&self) -> Map<SlotKey, T> {
        Map::new(
            |k: SlotKey|
                k.index < self.slots@.len() && self.slots@[k.index as int] is Some
                    && self.gens@[k.index as int] == k.generation,
            |k: SlotKey| self.slots@[k.index as int].unwrap(),
        )
    }

    /// Number of live entries.
    pub closed spec fn spec_len(&self) -> nat {
        self.live as nat
    }

    /// A handle that can never resolve again: its slot has moved past its
    /// generation, or its generation is the exhausted maximum, which no
    /// live slot ever carries. Every operation preserves this.
    pub closed spec fn dead(&self, k: SlotKey) -> bool {
        k.index < self.slots@.len() && ((k.generation as int) < self.gens@[k.index as int]
            || k.generation == u64::MAX)
    }

    /// Generational safety: a dead handle does not resolve. Together with
    /// `remove`'s ensures (the removed handle is dead) and the
    /// deadness-preservation clause of every mutating operation, this says
    /// that once a handle has been removed, `get` returns `None` for it
    /// forever, even when its slot index has been reused.
    pub proof fn lemma_generational_safety(&self, k: SlotKey)
        requires
            self.wf(),
            self.dead(k),
        ensures
            !self@.dom().contains(k),
    {
    }

    /// A live handle is never the reserved all-zero default, whose
    /// generation is 0: slots hand out generations starting at 1.
    pub proof fn lemma_default_key_not_live(&self)
        requires
            self.wf(),
        ensures
            !self@.dom().contains(SlotKey { index: 0, generation: 0 }),
    {
    }

    /// An empty container.
    pub fn new() -> (r: Self)
        ensures
            r.wf(),
            r@ == Map::<SlotKey, T>::empty(),
            r.spec_len() == 0,
    {
        let r = Container { slots: Vec::new(), gens: Vec::new(), free: Vec::new(), live: 0 };
        proof {
            assert(r@ =~= Map::<SlotKey, T>::empty());
        }
        r
    }

    /// An empty container with space reserved for `capacity` entries.
    pub fn with_capacity(capacity: usize) -> (r: Self)
        ensures
            r.wf(),
            r@ == Map::<SlotKey, T>::empty(),
            r.spec_len() == 0,
    {
        let r = Container {
            slots: Vec::with_capacity(capacity),
            gens: Vec::with_capacity(capacity),
            free: Vec::new(),
            live: 0,
        };
        proof {
            assert(r@ =~= Map::<SlotKey, T>::empty());
        }
        r
    }

    /// Number of live entries.
    pub fn len(&self) -> (r: usize)
        requires
            self.wf(),
        ensures
            r == self.spec_len(),
    {
        self.live
    }

    /// True iff the container holds no entry; an empty container's view is
    /// the empty map.
    pub fn is_empty(&self) -> (r: bool)
        requires
            self.wf(),
        ensures
            r == (self.spec_len() == 0),
            r ==> self@ == Map::<SlotKey, T>::empty(),
    {
        proof {
            if self.live == 0 {
                lemma_count_some_zero(self.slots@);
                assert(self@ =~= Map::<SlotKey, T>::empty());
            }
        }
        self.live == 0
    }

    /// True iff `k` resolves to a live entry.
    pub fn contains(&self, k: SlotKey) -> (r: bool)
        requires
            self.wf(),
        ensures
            r == self@.dom().contains(k),
    {
        k.index < self.slots.len() && self.gens[k.index] == k.generation
            && self.slots[k.index].is_some()
    }

    /// The entry for `k`, or `None` when the handle is stale, forged or the
    /// reserved default.
    pub fn get(&self, k: SlotKey) -> (r: Option<&T>)
        requires
            self.wf(),
        ensures
            match r {
                Some(v) => self@.dom().contains(k) && *v == self@[k],
                None => !self@.dom().contains(k),
            },
    {
        if k.index < self.slots.len() && self.gens[k.index] == k.generation {
            self.slots[k.index].as_ref()
        } else {
            None
        }
    }

    /// Store `value` in a free slot (reusing a vacated one when available)
    /// and return its handle. The handle is fresh: it did not resolve
    /// before the call, and dead handles stay dead.
    pub fn insert(&mut self, value: T) -> (r: SlotKey)
        requires
            old(self).wf(),
        ensures
            final(self).wf(),
            !old(self)@.dom().contains(r),
            final(self)@ == old(self)@.insert(r, value),
            final(self).spec_len() == old(self).spec_len() + 1,
            r.generation >= 1,
            forall|k: SlotKey| old(self).dead(k) ==> final(self).dead(k),
    {
        let ghost m0 = self@;
        match self.free.pop() {
            Some(i) => {
                proof {
                    lemma_count_some_skip_vacant(self.slots@, i as int);
                    vstd::std_specs::vec::axiom_spec_len(&self.slots);
                }
                let r = SlotKey { index: i, generation: self.gens[i] };
                self.slots[i] = Some(value);
                self.live = self.live + 1;
                proof {
                    lemma_count_some_update(old(self).slots@, i as int, Some(value));
                    assert(self@ =~= m0.insert(r, value));
                }
                r
            },
            None => {
                let i = self.slots.len();
                let r = SlotKey { index: i, generation: 1 };
                proof {
                    lemma_count_some_le_len(self.slots@);
                }
                self.slots.push(Some(value));
                self.gens.push(1);
                proof {
                    vstd::std_specs::vec::axiom_spec_len(&self.slots);
                }
                self.live = self.live + 1;
                proof {
                    lemma_count_some_push(old(self).slots@, Some(value));
                    assert(self@ =~= m0.insert(r, value));
                }
                r
            },
        }
    }

    /// Remove the entry for `k`, returning its payload when `k` was live.
    /// A successful removal makes `k` dead: it will never resolve again,
    /// even when the slot is reused. A stale or unknown handle changes
    /// nothing.
    pub fn remove(&mut self, k: SlotKey) -> (r: Option<T>)
        requires
            old(self).wf(),
        ensures
            final(self).wf(),
            match r {
                Some(v) => {
                    &&& old(self)@.dom().contains(k)
                    &&& v == old(self)@[k]
                    &&& final(self)@ == old(self)@.remove(k)
                    &&& final(self).spec_len() + 1 == old(self).spec_len()
                    &&& final(self).dead(k)
                },
                None => {
                    &&& !old(self)@.dom().contains(k)
                    &&& final(self)@ == old(self)@
                    &&& final(self).spec_len() == old(self).spec_len()
                },
            },
            forall|k2: SlotKey| old(self).dead(k2) ==> final(self).dead(k2),
    {
        let ghost m0 = self@;
        if k.index < self.slots.len() && self.gens[k.index] == k.generation
            && self.slots[k.index].is_some() {
            proof {
                lemma_count_some_occupied(self.slots@, k.index as int);
            }
            let v = self.slots[k.index].take();
            self.live = self.live - 1;
            let g = self.gens[k.index];
            self.gens[k.index] = g + 1;
            if g + 1 < u64::MAX {
                self.free.push(k.index);
            }
            proof {
                lemma_count_some_update(old(self).slots@, k.index as int, None);
                assert(self@ =~= m0.remove(k));
                let f0 = old(self).free@;
                assert forall|j: int| 0 <= j < f0.len() implies f0[j] != k.index by {
                    assert(old(self).slots@[f0[j] as int] is None);
                }
                if g + 1 < u64::MAX {
                    assert(self.free@.drop_last() =~= f0);
                }
            }
            v
        } else {
            None
        }
    }

    /// Exclusive access to the entry for `k`, or `None` when the handle is
    /// stale or unknown. The caller may overwrite the payload in place;
    /// nothing else about the container changes.
    pub fn get_mut(&mut self, k: SlotKey) -> (r: Option<&mut T>)
        requires
            old(self).wf(),
        ensures
            final(self).wf(),
            final(self).spec_len() == old(self).spec_len(),
            forall|k2: SlotKey| old(self).dead(k2) ==> final(self).dead(k2),
            match r {
                Some(v) => {
                    &&& old(self)@.dom().contains(k)
                    &&& *v == old(self)@[k]
                    &&& final(self)@.dom().contains(k)
                    &&& final(self)@[k] == *final(v)
                    &&& forall|k2: SlotKey|
                        #[trigger] final(self)@.dom().contains(k2) <==> old(
                            self,
                        )@.dom().contains(k2)
                    &&& forall|k2: SlotKey|
                        k2 != k && old(self)@.dom().contains(k2) ==> #[trigger] final(self)@[k2]
                            == old(self)@[k2]
                },
                None => {
                    &&& !old(self)@.dom().contains(k)
                    &&& final(self)@ == old(self)@
                },
            },
    {
        if k.index < self.slots.len() && self.gens[k.index] == k.generation
            && self.slots[k.index].is_some() {
            proof {
                assert forall|j: int| 0 <= j < self.free@.len() implies self.free@[j]
                    != k.index by {
                    assert(self.slots@[self.free@[j] as int] is None);
                }
                assert forall|v: T|
                    count_some(old(self).slots@.update(k.index as int, Some(v))) == count_some(
                        old(self).slots@,
                    ) by {
                    lemma_count_some_update(old(self).slots@, k.index as int, Some(v));
                }
            }
            self.slots[k.index].as_mut()
        } else {
            None
        }
    }

    /// Drop every entry. Slot generations are bumped, not reset, so every
    /// handle that was live before the call is dead after it: clearing the
    /// container can never revive a stale handle.
    pub fn clear(&mut self)
        requires
            old(self).wf(),
        ensures
            final(self).wf(),
            final(self)@ == Map::<SlotKey, T>::empty(),
            final(self).spec_len() == 0,
            forall|k: SlotKey| old(self).dead(k) ==> final(self).dead(k),
            forall|k: SlotKey| old(self)@.dom().contains(k) ==> final(self).dead(k),
    {
        let n = self.slots.len();
        let mut i: usize = 0;
        while i < n
            invariant
                n == self.slots@.len(),
                self.gens@.len() == n,
                old(self).slots@.len() == n,
                old(self).gens@.len() == n,
                i <= n,
                forall|j: int| 0 <= j < i ==> self.slots@[j] is None,
                forall|j: int| i <= j < n ==> #[trigger] self.slots@[j] == old(self).slots@[j],
                forall|j: int| i <= j < n ==> #[trigger] self.gens@[j] == old(self).gens@[j],
                forall|j: int| 0 <= j < n ==> 1 <= #[trigger] self.gens@[j],
                forall|j: int| 0 <= j < n ==> old(self).gens@[j] <= #[trigger] self.gens@[j],
                forall|j: int|
                    0 <= j < n && self.slots@[j] is Some ==> #[trigger] self.gens@[j] < u64::MAX,
                forall|j: int|
                    0 <= j < n && old(self).slots@[j] is Some && j < i ==> old(self).gens@[j]
                        < #[trigger] self.gens@[j],
                forall|j: int|
                    0 <= j < self.free@.len() ==> {
                        let s = #[trigger] self.free@[j] as int;
                        &&& s < n
                        &&& self.slots@[s] is None
                        &&& self.gens@[s] < u64::MAX
                    },
                self.free@.no_duplicates(),
            decreases n - i,
        {
            if self.slots[i].is_some() {
                proof {
                    assert forall|j: int| 0 <= j < self.free@.len() implies self.free@[j]
                        != i by {
                        assert(self.slots@[self.free@[j] as int] is None);
                    }
                }
                self.slots[i] = None;
                let g = self.gens[i];
                self.gens[i] = g + 1;
                if g + 1 < u64::MAX {
                    self.free.push(i);
                    proof {
                        assert(self.free@.drop_last().no_duplicates());
                    }
                }
            }
            i = i + 1;
        }
        self.live = 0;
        proof {
            lemma_count_some_all_none(self.slots@);
            assert(self@ =~= Map::<SlotKey, T>::empty());
        }
    }

    /// The handles of all live entries, in ascending slot order.
    pub fn keys(&self) -> (r: Vec<SlotKey>)
        requires
            self.wf(),
        ensures
            r@.len() == self.spec_len(),
            forall|j: int| 0 <= j < r@.len() ==> self@.dom().contains(#[trigger] r@[j]),
            forall|k: SlotKey| #[trigger] self@.dom().contains(k) ==> r@.contains(k),
            forall|j1: int, j2: int| 0 <= j1 < j2 < r@.len() ==> r@[j1].index < r@[j2].index,
    {
        let n = self.slots.len();
        let mut r: Vec<SlotKey> = Vec::new();
        let mut i: usize = 0;
        while i < n
            invariant
                self.wf(),
                n == self.slots@.len(),
                i <= n,
                r@.len() == count_some(self.slots@.subrange(0, i as int)),
                forall|j: int|
                    0 <= j < r@.len() ==> self@.dom().contains(#[trigger] r@[j]) && r@[j].index
                        < i,
                forall|k: SlotKey|
                    #[trigger] self@.dom().contains(k) && k.index < i ==> r@.contains(k),
                forall|j1: int, j2: int| 0 <= j1 < j2 < r@.len() ==> r@[j1].index < r@[j2].index,
            decreases n - i,
        {
            proof {
                assert(self.slots@.subrange(0, i + 1) =~= self.slots@.subrange(0, i as int).push(
                    self.slots@[i as int],
                ));
                lemma_count_some_push(self.slots@.subrange(0, i as int), self.slots@[i as int]);
            }
            let ghost r0 = r@;
            if self.slots[i].is_some() {
                r.push(SlotKey { index: i, generation: self.gens[i] });
                proof {
                    assert forall|k: SlotKey|
                        #[trigger] self@.dom().contains(k) && k.index < i + 1 implies r@.contains(
                        k,
                    ) by {
                        if k.index < i {
                            let idx = choose|idx: int| 0 <= idx < r0.len() && r0[idx] == k;
                            assert(r@[idx] == k);
                        } else {
                            assert(k == (SlotKey { index: i, generation: self.gens@[i as int] }));
                            assert(r@[r@.len() - 1] == k);
                        }
                    }
                }
            }
            i = i + 1;
        }
        proof {
            assert(self.slots@.subrange(0, n as int) =~= self.slots@);
        }
        r
    }

    /// References to the payloads of all live entries, in slot order:
    /// exactly one payload per live handle.
    pub fn values(&self) -> (r: Vec<&T>)
        requires
            self.wf(),
        ensures
            r@.len() == self.spec_len(),
            exists|ks: Seq<SlotKey>, vs: Seq<T>|
                #[trigger] listed_values(self@, ks, vs) && vs == r@.map_values(|v: &T| *v),
    {
        let ps = self.iter();
        let n = ps.len();
        let mut r: Vec<&T> = Vec::new();
        let mut j: usize = 0;
        while j < n
            invariant
                n == ps@.len(),
                j <= n,
                r@.len() == j,
                forall|t: int| 0 <= t < j ==> #[trigger] r@[t] == ps@[t].1,
                forall|t: int|
                    0 <= t < n ==> self@.dom().contains(#[trigger] ps@[t].0) && *ps@[t].1
                        == self@[ps@[t].0],
            decreases n - j,
        {
            r.push(ps[j].1);
            j = j + 1;
        }
        proof {
            let ks = ps@.map_values(|p: (SlotKey, &T)| p.0);
            let vs = r@.map_values(|v: &T| *v);
            assert forall|j1: int, j2: int|
                0 <= j1 < ks.len() && 0 <= j2 < ks.len() && j1 != j2 implies ks[j1] != ks[j2] by {
                if j1 < j2 {
                    assert(ps@[j1].0.index < ps@[j2].0.index);
                } else {
                    assert(ps@[j2].0.index < ps@[j1].0.index);
                }
            }
            assert forall|j: int| 0 <= j < ks.len() implies self@.dom().contains(
                #[trigger] ks[j],
            ) && vs[j] == self@[ks[j]] by {
                assert(ks[j] == ps@[j].0 && vs[j] == *r@[j]);
            }
            assert forall|k: SlotKey| #[trigger] self@.dom().contains(k) implies ks.contains(
                k,
            ) by {
                let t = choose|t: int| 0 <= t < ps@.len() && ps@[t].0 == k;
                assert(ks[t] == k);
            }
            assert(listed_values(self@, ks, vs));
        }
        r
    }

    /// The live entries as (handle, payload reference) pairs, in ascending
    /// slot order; every live handle appears exactly once.
    pub fn iter(&self) -> (r: Vec<(SlotKey, &T)>)
        requires
            self.wf(),
        ensures
            r@.len() == self.spec_len(),
            forall|j: int|
                0 <= j < r@.len() ==> self@.dom().contains(#[trigger] r@[j].0) && *r@[j].1
                    == self@[r@[j].0],
            forall|k: SlotKey|
                #[trigger] self@.dom().contains(k) ==> exists|j: int|
                    0 <= j < r@.len() && r@[j].0 == k,
            forall|j1: int, j2: int| 0 <= j1 < j2 < r@.len() ==> r@[j1].0.index < r@[j2].0.index,
    {
        let n = self.slots.len();
        let mut r: Vec<(SlotKey, &T)> = Vec::new();
        let mut i: usize = 0;
        while i < n
            invariant
                self.wf(),
                n == self.slots@.len(),
                i <= n,
                r@.len() == count_some(self.slots@.subrange(0, i as int)),
                forall|j: int|
                    0 <= j < r@.len() ==> self@.dom().contains(#[trigger] r@[j].0) && *r@[j].1
                        == self@[r@[j].0] && r@[j].0.index < i,
                forall|k: SlotKey|
                    #[trigger] self@.dom().contains(k) && k.index < i ==> exists|j: int|
                        0 <= j < r@.len() && r@[j].0 == k,
                forall|j1: int, j2: int|
                    0 <= j1 < j2 < r@.len() ==> r@[j1].0.index < r@[j2].0.index,
            decreases n - i,
        {
            proof {
                assert(self.slots@.subrange(0, i + 1) =~= self.slots@.subrange(0, i as int).push(
                    self.slots@[i as int],
                ));
                lemma_count_some_push(self.slots@.subrange(0, i as int), self.slots@[i as int]);
            }
            let ghost r0 = r@;
            match self.slots[i].as_ref() {
                Some(v) => {
                    r.push((SlotKey { index: i, generation: self.gens[i] }, v));
                    proof {
                        assert forall|k: SlotKey|
                            #[trigger] self@.dom().contains(k) && k.index < i + 1 implies exists|
                            j: int,
                        |
                            0 <= j < r@.len() && r@[j].0 == k by {
                            if k.index < i {
                                let idx = choose|idx: int|
                                    0 <= idx < r0.len() && #[trigger] r0[idx].0 == k;
                                assert(r@[idx].0 == k);
                            } else {
                                assert(k == (SlotKey {
                                    index: i,
                                    generation: self.gens@[i as int],
                                }));
                                assert(r@[r@.len() - 1].0 == k);
                            }
                        }
                    }
                },
                None => {},
            }
            i = i + 1;
        }
        proof {
            assert(self.slots@.subrange(0, n as int) =~= self.slots@);
        }
        r
    }
}

} // verus!
