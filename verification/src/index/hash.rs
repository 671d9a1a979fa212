//! The exact-match multimap index: a mapping from keys to de-duplicated
//! sets of element ids.
//!
//! The index is modelled as a `Map<K, Set<V>>`. Two invariants are part
//! of the contract: a key with an empty value set is never present (a
//! removal that empties a key's set deletes the key), and insertion is
//! idempotent (a duplicate pair changes nothing and reports `false`).
//!
//! The contracts take the standard-library comparison laws as premises
//! (`obeys_concrete_eq`): executable equality on keys and values must
//! agree with logical equality. The premises are dischargeable for the
//! integer types (vstd's ambient laws) and for this crate's id types
//! (their hand-written equality impls). `String` keys behave correctly
//! at run time, but vstd specifies `String` equality over its character
//! view only, so a verified caller cannot discharge the premise for
//! `String`; verified string-keyed indexing goes through the query
//! facade's dedicated string index instead.

use vstd::prelude::*;

use vstd::laws_eq::obeys_concrete_eq;

verus! {

/// True iff the pair `(k, v)` is present in the multimap.
pub open spec fn multimap_contains<K, V>(m: Map<K, Set<V>>, k: K, v: V) -> bool {
    m.dom().contains(k) && m[k].contains(v)
}

/// The multimap after inserting the pair `(k, v)`: `v` joins the set
/// under `k`, which is created when absent.
pub open spec fn multimap_insert<K, V>(m: Map<K, Set<V>>, k: K, v: V) -> Map<K, Set<V>> {
    if m.dom().contains(k) {
        m.insert(k, m[k].insert(v))
    } else {
        m.insert(k, Set::empty().insert(v))
    }
}

/// The multimap after removing the pair `(k, v)`: when the removal
/// empties the set under `k`, the key itself is removed.
pub open spec fn multimap_remove<K, V>(m: Map<K, Set<V>>, k: K, v: V) -> Map<K, Set<V>> {
    if multimap_contains(m, k, v) {
        if m[k].remove(v) == Set::<V>::empty() {
            m.remove(k)
        } else {
            m.insert(k, m[k].remove(v))
        }
    } else {
        m
    }
}

/// Idempotent multimap insertion: after inserting `(k, v)` the pair is
/// present, inserting it a second time changes nothing, and under a
/// fresh key the value set has exactly one element, not two.
pub proof fn lemma_multimap_insert_idempotent<K, V>(m: Map<K, Set<V>>, k: K, v: V)
    ensures
        multimap_contains(multimap_insert(m, k, v), k, v),
        multimap_insert(multimap_insert(m, k, v), k, v) == multimap_insert(m, k, v),
        !m.dom().contains(k) ==> multimap_insert(m, k, v)[k].len() == 1,
{
    let m1 = multimap_insert(m, k, v);
    let m2 = multimap_insert(m1, k, v);
    assert(m1[k].insert(v) =~= m1[k]);
    assert(m2 =~= m1);
    if !m.dom().contains(k) {
        assert(m1[k] =~= Set::empty().insert(v));
        assert(Set::<V>::empty().insert(v).remove(v) =~= Set::<V>::empty());
        assert(Set::<V>::empty().insert(v).len() == 1);
    }
}

/// Empty-key cleanup: removing the only value stored under a key removes
/// the key itself, so no key ever remains with an empty value set.
pub proof fn lemma_multimap_remove_last_value_drops_key<K, V>(m: Map<K, Set<V>>, k: K, v: V)
    requires
        m.dom().contains(k),
        m[k] == Set::<V>::empty().insert(v),
    ensures
        !multimap_remove(m, k, v).dom().contains(k),
{
    assert(m[k].contains(v));
    assert(m[k].remove(v) =~= Set::<V>::empty());
}

/// Sum of the group sizes of an association list of (key, values)
/// groups.
pub open spec fn groups_total<K, V>(s: Seq<(K, Seq<V>)>) -> nat
    decreases s.len(),
{
    if s.len() == 0 {
        0
    } else {
        groups_total(s.drop_last()) + s.last().1.len()
    }
}

/// The stored value total is the group-size sum of the entries seen as
/// (key, values) groups.
pub(crate) proof fn lemma_groups_total_matches<K, V>(s: Seq<(K, Vec<V>)>)
    ensures
        groups_total(s.map_values(|e: (K, Vec<V>)| (e.0, e.1@))) == total_len(s),
    decreases s.len(),
{
    let g = s.map_values(|e: (K, Vec<V>)| (e.0, e.1@));
    if s.len() > 0 {
        assert(g.drop_last() =~= s.drop_last().map_values(|e: (K, Vec<V>)| (e.0, e.1@)));
        lemma_groups_total_matches(s.drop_last());
    }
}

/// A group-size sum is at least the group count when no group is empty.
pub(crate) proof fn lemma_groups_total_at_least_count<K, V>(s: Seq<(K, Vec<V>)>)
    requires
        forall|i: int| 0 <= i < s.len() ==> (#[trigger] s[i]).1@.len() > 0,
    ensures
        total_len(s) >= s.len(),
    decreases s.len(),
{
    if s.len() > 0 {
        assert(s[s.len() - 1].1@.len() > 0);
        lemma_groups_total_at_least_count(s.drop_last());
    }
}

/// Sum of the value-set sizes of an association list.
pub(crate) open spec fn total_len<K, V>(s: Seq<(K, Vec<V>)>) -> nat
    decreases s.len(),
{
    if s.len() == 0 {
        0
    } else {
        total_len(s.drop_last()) + s.last().1@.len()
    }
}

pub(crate) proof fn lemma_total_len_push<K, V>(s: Seq<(K, Vec<V>)>, p: (K, Vec<V>))
    ensures
        total_len(s.push(p)) == total_len(s) + p.1@.len(),
{
    assert(s.push(p).drop_last() =~= s);
}

pub(crate) proof fn lemma_total_len_update<K, V>(s: Seq<(K, Vec<V>)>, i: int, p: (K, Vec<V>))
    requires
        0 <= i < s.len(),
    ensures
        total_len(s.update(i, p)) == total_len(s) + p.1@.len() - s[i].1@.len(),
    decreases s.len(),
{
    let t = s.update(i, p);
    if i == s.len() - 1 {
        assert(t.drop_last() =~= s.drop_last());
    } else {
        assert(t.drop_last() =~= s.drop_last().update(i, p));
        lemma_total_len_update(s.drop_last(), i, p);
    }
}

pub(crate) proof fn lemma_total_len_remove<K, V>(s: Seq<(K, Vec<V>)>, i: int)
    requires
        0 <= i < s.len(),
    ensures
        total_len(s.remove(i)) == total_len(s) - s[i].1@.len(),
    decreases s.len(),
{
    let t = s.remove(i);
    if i == s.len() - 1 {
        assert(t =~= s.drop_last());
    } else {
        assert(t.drop_last() =~= s.drop_last().remove(i));
        assert(t.last() == s.last());
        lemma_total_len_remove(s.drop_last(), i);
    }
}

pub(crate) proof fn lemma_total_len_prefix<K, V>(s: Seq<(K, Vec<V>)>, i: int)
    requires
        0 <= i <= s.len(),
    ensures
        total_len(s.subrange(0, i)) <= total_len(s),
    decreases s.len() - i,
{
    if i == s.len() {
        assert(s.subrange(0, i) =~= s);
    } else {
        assert(s.subrange(0, i + 1).drop_last() =~= s.subrange(0, i));
        assert(total_len(s.subrange(0, i + 1)) == total_len(s.subrange(0, i)) + s[i].1@.len());
        lemma_total_len_prefix(s, i + 1);
    }
}

/// Pushing an element onto a sequence inserts it into the set of its
/// elements.
pub(crate) proof fn lemma_push_to_set<V>(s: Seq<V>, v: V)
    ensures
        s.push(v).to_set() =~= s.to_set().insert(v),
{
    assert forall|x: V| s.push(v).to_set().contains(x) implies s.to_set().insert(v).contains(
        x,
    ) by {
        let j = choose|j: int| 0 <= j < s.push(v).len() && s.push(v)[j] == x;
        if j < s.len() {
            assert(s[j] == x);
        }
    }
    assert forall|x: V| s.to_set().insert(v).contains(x) implies s.push(v).to_set().contains(
        x,
    ) by {
        if x == v {
            assert(s.push(v)[s.len() as int] == x);
        } else {
            let j = choose|j: int| 0 <= j < s.len() && s[j] == x;
            assert(s.push(v)[j] == x);
        }
    }
}

/// A sequence without duplicates loses exactly its `i`-th element, as a
/// set, when that position is removed.
pub(crate) proof fn lemma_remove_to_set<V>(s: Seq<V>, i: int)
    requires
        0 <= i < s.len(),
        s.no_duplicates(),
    ensures
        s.remove(i).to_set() =~= s.to_set().remove(s[i]),
        s.remove(i).no_duplicates(),
{
    let t = s.remove(i);
    assert forall|x: V| t.to_set().contains(x) implies s.to_set().remove(s[i]).contains(x) by {
        let j = choose|j: int| 0 <= j < t.len() && t[j] == x;
        if j < i {
            assert(s[j] == x);
        } else {
            assert(s[j + 1] == x);
        }
    }
    assert forall|x: V| s.to_set().remove(s[i]).contains(x) implies t.to_set().contains(x) by {
        let j = choose|j: int| 0 <= j < s.len() && s[j] == x;
        if j < i {
            assert(t[j] == x);
        } else {
            assert(t[j - 1] == x);
        }
    }
}

/// The exact-match multimap index from keys to de-duplicated sets of
/// values. The view `self@` is the multimap as a `Map<K, Set<V>>`.
#[derive(Debug)]
pub struct HashIndex<K, V> {
    entries: Vec<(K, Vec<V>)>,
}

impl<K: Eq, V: Eq + Copy> HashIndex<K, V> {
    /// True iff some entry carries the key `k`.
    spec fn has_key(&self, k: K) -> bool {
        exists|i: int| 0 <= i < self.entries@.len() && #[trigger] self.entries@[i].0 == k
    }

    /// The position of the entry carrying `k`, when `has_key(k)`.
    spec fn spec_key_idx(&self, k: K) -> int {
        choose|i: int| 0 <= i < self.entries@.len() && #[trigger] self.entries@[i].0 == k
    }

    /// Internal well-formedness: keys are pairwise distinct, no entry has
    /// an empty value list, value lists carry no duplicates, and the
    /// total number of stored values fits in `usize`.
    pub closed spec fn wf(&self) -> bool {
        &&& forall|i: int, j: int|
            0 <= i < j < self.entries@.len() ==> #[trigger] self.entries@[i].0
                != #[trigger] self.entries@[j].0
        &&& forall|i: int|
            0 <= i < self.entries@.len() ==> (#[trigger] self.entries@[i]).1@.len() > 0
        &&& forall|i: int|
            0 <= i < self.entries@.len() ==> (#[trigger] self.entries@[i]).1@.no_duplicates()
        &&& total_len(self.entries@) <= usize::MAX
    }

    /// The multimap held by the index.
    pub closed spec fn view(&self) -> Map<K, Set<V>> {
        Map::new(
            |k: K| self.has_key(k),
            |k: K| self.entries@[self.spec_key_idx(k)].1@.to_set(),
        )
    }

    /// Number of distinct keys.
    pub closed spec fn spec_keys_len(&self) -> nat {
        self.entries@.len()
    }

    /// Total number of stored values over all keys.
    pub closed spec fn spec_total_len(&self) -> nat {
        total_len(self.entries@)
    }

    /// No key is ever present with an empty value set, and value sets are
    /// finite.
    pub proof fn lemma_no_empty_keys(&self)
        requires
            self.wf(),
        ensures
            forall|k: K|
                #[trigger] self@.dom().contains(k) ==> self@[k].finite() && self@[k].len() > 0,
    {
        assert forall|k: K| #[trigger] self@.dom().contains(k) implies self@[k].finite()
            && self@[k].len() > 0 by {
            let i = self.spec_key_idx(k);
            let vs = self.entries@[i].1@;
            vs.lemma_cardinality_of_set();
            assert(vs.to_set().contains(vs[0]));
            assert(vs.to_set().len() != 0);
        }
    }

    /// The index's contents as (key, values) groups, each key exactly
    /// once; the order of the groups is internal and not part of the
    /// contract.
    pub closed spec fn groups(&self) -> Seq<(K, Seq<V>)> {
        self.entries@.map_values(|e: (K, Vec<V>)| (e.0, e.1@))
    }

    /// The counters mean what they say over the view: the key count is
    /// the number of groups, the value total is the sum of the group
    /// sizes, and the groups list exactly the multimap, each key once
    /// with its de-duplicated values.
    pub proof fn lemma_groups_agree(&self)
        requires
            self.wf(),
        ensures
            self.groups().len() == self.spec_keys_len(),
            groups_total(self.groups()) == self.spec_total_len(),
            forall|i: int, j: int|
                0 <= i < j < self.groups().len() ==> (#[trigger] self.groups()[i]).0
                    != (#[trigger] self.groups()[j]).0,
            forall|i: int|
                0 <= i < self.groups().len() ==> {
                    let g = #[trigger] self.groups()[i];
                    &&& self@.dom().contains(g.0)
                    &&& self@[g.0] == g.1.to_set()
                    &&& g.1.len() > 0
                    &&& g.1.no_duplicates()
                },
            forall|k: K|
                #[trigger] self@.dom().contains(k) ==> exists|i: int|
                    0 <= i < self.groups().len() && self.groups()[i].0 == k,
    {
        lemma_groups_total_matches(self.entries@);
        assert forall|i: int| 0 <= i < self.groups().len() implies {
            let g = #[trigger] self.groups()[i];
            &&& self@.dom().contains(g.0)
            &&& self@[g.0] == g.1.to_set()
            &&& g.1.len() > 0
            &&& g.1.no_duplicates()
        } by {
            assert(self.entries@[i].0 == self.groups()[i].0);
            assert(self.has_key(self.groups()[i].0));
            let j = self.spec_key_idx(self.groups()[i].0);
            if j != i {
                assert(self.entries@[i].0 == self.entries@[j].0);
            }
        }
        assert forall|k: K| #[trigger] self@.dom().contains(k) implies exists|i: int|
            0 <= i < self.groups().len() && self.groups()[i].0 == k by {
            let i = self.spec_key_idx(k);
            assert(self.groups()[i].0 == k);
        }
    }

    /// The value total dominates the key count (no key's set is empty),
    /// and it is zero exactly when the index is empty.
    pub proof fn lemma_total_len_bounds(&self)
        requires
            self.wf(),
        ensures
            self.spec_total_len() >= self.spec_keys_len(),
            (self.spec_total_len() == 0) <==> (self.spec_keys_len() == 0),
    {
        lemma_groups_total_at_least_count(self.entries@);
    }

    /// An empty index.
    pub fn new() -> (r: Self)
        ensures
            r.wf(),
            r@ == Map::<K, Set<V>>::empty(),
            r.spec_keys_len() == 0,
            r.spec_total_len() == 0,
    {
        let r = HashIndex { entries: Vec::new() };
        proof {
            assert(r@ =~= Map::<K, Set<V>>::empty());
        }
        r
    }

    /// An empty index with space reserved for `capacity` keys.
    pub fn with_capacity(capacity: usize) -> (r: Self)
        ensures
            r.wf(),
            r@ == Map::<K, Set<V>>::empty(),
            r.spec_keys_len() == 0,
            r.spec_total_len() == 0,
    {
        let r = HashIndex { entries: Vec::with_capacity(capacity) };
        proof {
            assert(r@ =~= Map::<K, Set<V>>::empty());
        }
        r
    }

    /// The position of the entry for `key`, if any.
    fn find_key(&self, key: &K) -> (r: Option<usize>)
        requires
            obeys_concrete_eq::<K>(),
        ensures
            match r {
                Some(i) => 0 <= i < self.entries@.len() && self.entries@[i as int].0 == *key,
                None => forall|i: int|
                    0 <= i < self.entries@.len() ==> #[trigger] self.entries@[i].0 != *key,
            },
    {
        let n = self.entries.len();
        let mut i: usize = 0;
        while i < n
            invariant
                obeys_concrete_eq::<K>(),
                n == self.entries@.len(),
                i <= n,
                forall|j: int| 0 <= j < i ==> #[trigger] self.entries@[j].0 != *key,
            decreases n - i,
        {
            let hit = self.entries[i].0 == *key;
            proof {
                reveal(vstd::laws_eq::obeys_concrete_eq);
            }
            if hit {
                return Some(i);
            }
            i = i + 1;
        }
        None
    }

    /// The position of `v` inside `vs`, if any.
    fn find_val(vs: &Vec<V>, v: &V) -> (r: Option<usize>)
        requires
            obeys_concrete_eq::<V>(),
        ensures
            match r {
                Some(p) => 0 <= p < vs@.len() && vs@[p as int] == *v,
                None => forall|j: int| 0 <= j < vs@.len() ==> #[trigger] vs@[j] != *v,
            },
    {
        let n = vs.len();
        let mut j: usize = 0;
        while j < n
            invariant
                obeys_concrete_eq::<V>(),
                n == vs@.len(),
                j <= n,
                forall|t: int| 0 <= t < j ==> #[trigger] vs@[t] != *v,
            decreases n - j,
        {
            let hit = vs[j] == *v;
            proof {
                reveal(vstd::laws_eq::obeys_concrete_eq);
            }
            if hit {
                return Some(j);
            }
            j = j + 1;
        }
        None
    }

    /// Insert the pair `(key, value)`. Returns `true` iff the pair was
    /// newly added; inserting a pair that is already present changes
    /// nothing and returns `false`.
    pub fn insert(&mut self, key: K, value: V) -> (r: bool)
        requires
            old(self).wf(),
            obeys_concrete_eq::<K>(),
            obeys_concrete_eq::<V>(),
            old(self).spec_total_len() < usize::MAX,
        ensures
            final(self).wf(),
            r == !multimap_contains(old(self)@, key, value),
            final(self)@ == multimap_insert(old(self)@, key, value),
            final(self).spec_total_len() == old(self).spec_total_len() + (if r {
                1int
            } else {
                0int
            }),
            final(self).spec_keys_len() == old(self).spec_keys_len() + (if old(self)@.dom().contains(key) {
                0int
            } else {
                1int
            }),
    {
        match self.find_key(&key) {
            Some(i) => {
                proof {
                    assert(self.has_key(key));
                    assert(self.spec_key_idx(key) == i) by {
                        let j = self.spec_key_idx(key);
                        if j != i {
                            assert(self.entries@[i as int].0 == key);
                        }
                    }
                }
                match Self::find_val(&self.entries[i].1, &value) {
                    Some(_) => {
                        proof {
                            assert(old(self)@[key].contains(value));
                            assert(old(self)@[key].insert(value) =~= old(self)@[key]);
                            assert(multimap_insert(old(self)@, key, value) =~= old(self)@);
                        }
                        false
                    },
                    None => {
                        let ghost s0 = self.entries@;
                        self.entries[i].1.push(value);
                        proof {
                            let s1 = self.entries@;
                            assert(s1 =~= s0.update(
                                i as int,
                                (s0[i as int].0, s1[i as int].1),
                            ));
                            lemma_total_len_update(s0, i as int, s1[i as int]);
                            assert(s1[i as int].1@ =~= s0[i as int].1@.push(value));
                            lemma_push_to_set(s0[i as int].1@, value);
                            assert forall|k2: K| #[trigger] final(self).has_key(k2) <==> old(self).has_key(k2) by {
                                if final(self).has_key(k2) {
                                    let t = choose|t: int|
                                        0 <= t < s1.len() && #[trigger] s1[t].0 == k2;
                                    assert(s0[t].0 == k2);
                                }
                                if old(self).has_key(k2) {
                                    let t = choose|t: int|
                                        0 <= t < s0.len() && #[trigger] s0[t].0 == k2;
                                    assert(s1[t].0 == k2);
                                }
                            }
                            assert forall|k2: K| final(self).has_key(k2) implies #[trigger] final(self)@[k2] == multimap_insert(old(self)@, key, value)[k2] by {
                                let t1 = final(self).spec_key_idx(k2);
                                let t0 = old(self).spec_key_idx(k2);
                                assert(s1[t1].0 == k2 && s0[t0].0 == k2);
                                if t1 != t0 {
                                    assert(s0[t1].0 == s1[t1].0);
                                }
                            }
                            assert(final(self)@ =~= multimap_insert(old(self)@, key, value));
                        }
                        true
                    },
                }
            },
            None => {
                let ghost s0 = self.entries@;
                let mut vs: Vec<V> = Vec::new();
                vs.push(value);
                self.entries.push((key, vs));
                proof {
                    let s1 = self.entries@;
                    lemma_total_len_push(s0, s1.last());
                    assert(!old(self).has_key(key));
                    assert(s1[s0.len() as int].0 == key);
                    assert(final(self).has_key(key));
                    assert forall|k2: K| #[trigger] final(self).has_key(k2) <==> (old(self).has_key(k2) || k2 == key) by {
                        if final(self).has_key(k2) && k2 != key {
                            let t = choose|t: int| 0 <= t < s1.len() && #[trigger] s1[t].0 == k2;
                            assert(t < s0.len());
                            assert(s0[t].0 == k2);
                        }
                        if old(self).has_key(k2) {
                            let t = choose|t: int| 0 <= t < s0.len() && #[trigger] s0[t].0 == k2;
                            assert(s1[t].0 == k2);
                        }
                    }
                    assert forall|k2: K| final(self).has_key(k2) implies #[trigger] final(self)@[k2] == multimap_insert(old(self)@, key, value)[k2] by {
                        let t1 = final(self).spec_key_idx(k2);
                        assert(s1[t1].0 == k2);
                        if k2 == key {
                            assert(t1 == s0.len()) by {
                                if t1 < s0.len() {
                                    assert(s0[t1].0 == key);
                                }
                            }
                            assert(s1[t1].1@ =~= Seq::<V>::empty().push(value));
                            lemma_push_to_set(Seq::<V>::empty(), value);
                            assert(Seq::<V>::empty().to_set() =~= Set::<V>::empty());
                        } else {
                            let t0 = old(self).spec_key_idx(k2);
                            assert(s0[t0].0 == k2);
                            assert(t1 < s0.len() || s1[t1].0 == key);
                            if t1 != t0 {
                                assert(s0[t1].0 == s1[t1].0);
                            }
                        }
                    }
                    assert(final(self)@ =~= multimap_insert(old(self)@, key, value));
                }
                true
            },
        }
    }

    /// Remove the pair `(key, value)`. Returns `true` iff the pair was
    /// present; when its removal empties the set under `key`, the key
    /// entry itself is deleted.
    pub fn remove(&mut self, key: &K, value: &V) -> (r: bool)
        requires
            old(self).wf(),
            obeys_concrete_eq::<K>(),
            obeys_concrete_eq::<V>(),
        ensures
            final(self).wf(),
            r == multimap_contains(old(self)@, *key, *value),
            final(self)@ == multimap_remove(old(self)@, *key, *value),
            final(self).spec_total_len() == old(self).spec_total_len() - (if r {
                1int
            } else {
                0int
            }),
    {
        match self.find_key(key) {
            Some(i) => {
                proof {
                    assert(self.has_key(*key));
                    assert(self.spec_key_idx(*key) == i) by {
                        let j = self.spec_key_idx(*key);
                        if j != i {
                            assert(self.entries@[i as int].0 == *key);
                        }
                    }
                }
                match Self::find_val(&self.entries[i].1, value) {
                    Some(p) => {
                        let ghost s0 = self.entries@;
                        if self.entries[i].1.len() == 1 {
                            proof {
                                lemma_total_len_remove(s0, i as int);
                                assert(s0[i as int].1@[p as int] == *value);
                                assert(s0[i as int].1@ =~= Seq::<V>::empty().push(*value));
                                lemma_push_to_set(Seq::<V>::empty(), *value);
                                assert(Seq::<V>::empty().to_set() =~= Set::<V>::empty());
                                assert(s0[i as int].1@.to_set().remove(*value) =~= Set::<
                                    V,
                                >::empty());
                            }
                            let _ = self.entries.remove(i);
                            proof {
                                let s1 = self.entries@;
                                assert forall|k2: K| #[trigger] final(self).has_key(k2) <==> (old(self).has_key(k2) && k2 != *key) by {
                                    if final(self).has_key(k2) {
                                        let t = choose|t: int|
                                            0 <= t < s1.len() && #[trigger] s1[t].0 == k2;
                                        if t < i {
                                            assert(s0[t].0 == k2);
                                        } else {
                                            assert(s0[t + 1].0 == k2);
                                        }
                                    }
                                    if old(self).has_key(k2) && k2 != *key {
                                        let t = choose|t: int|
                                            0 <= t < s0.len() && #[trigger] s0[t].0 == k2;
                                        if t < i {
                                            assert(s1[t].0 == k2);
                                        } else {
                                            assert(t != i);
                                            assert(s1[t - 1].0 == k2);
                                        }
                                    }
                                }
                                assert forall|k2: K| final(self).has_key(k2) implies #[trigger] final(self)@[k2] == multimap_remove(old(self)@, *key, *value)[k2] by {
                                    let t1 = final(self).spec_key_idx(k2);
                                    let t0 = old(self).spec_key_idx(k2);
                                    assert(s1[t1].0 == k2 && s0[t0].0 == k2);
                                    if t1 < i {
                                        if t0 != t1 {
                                            assert(s0[t1].0 == k2);
                                        }
                                        assert(s1[t1] == s0[t1]);
                                    } else {
                                        if t0 != t1 + 1 {
                                            assert(s0[t1 + 1].0 == k2);
                                        }
                                        assert(s1[t1] == s0[t1 + 1]);
                                    }
                                }
                                assert(final(self)@ =~= multimap_remove(old(self)@, *key, *value));
                            }
                        } else {
                            proof {
                                lemma_remove_to_set(s0[i as int].1@, p as int);
                            }
                            let _ = self.entries[i].1.remove(p);
                            proof {
                                let s1 = self.entries@;
                                assert(s1 =~= s0.update(
                                    i as int,
                                    (s0[i as int].0, s1[i as int].1),
                                ));
                                lemma_total_len_update(s0, i as int, s1[i as int]);
                                assert(s1[i as int].1@ =~= s0[i as int].1@.remove(p as int));
                                assert(s1[i as int].1@.to_set() =~= s0[
                                    i as int
                                ].1@.to_set().remove(*value));
                                assert(s0[i as int].1@.to_set().remove(*value) != Set::<
                                    V,
                                >::empty()) by {
                                    let vs0 = s0[i as int].1@;
                                    let other = if p == 0 {
                                        vs0[1]
                                    } else {
                                        vs0[0]
                                    };
                                    assert(vs0.to_set().contains(other));
                                    assert(other != *value);
                                    assert(vs0.to_set().remove(*value).contains(other));
                                }
                                assert forall|k2: K| #[trigger] final(self).has_key(k2) <==> old(self).has_key(k2) by {
                                    if final(self).has_key(k2) {
                                        let t = choose|t: int|
                                            0 <= t < s1.len() && #[trigger] s1[t].0 == k2;
                                        assert(s0[t].0 == k2);
                                    }
                                    if old(self).has_key(k2) {
                                        let t = choose|t: int|
                                            0 <= t < s0.len() && #[trigger] s0[t].0 == k2;
                                        assert(s1[t].0 == k2);
                                    }
                                }
                                assert forall|k2: K| final(self).has_key(k2) implies #[trigger] final(self)@[k2] == multimap_remove(old(self)@, *key, *value)[k2] by {
                                    let t1 = final(self).spec_key_idx(k2);
                                    let t0 = old(self).spec_key_idx(k2);
                                    assert(s1[t1].0 == k2 && s0[t0].0 == k2);
                                    if t1 != t0 {
                                        assert(s0[t1].0 == s1[t1].0);
                                    }
                                }
                                assert(final(self)@ =~= multimap_remove(old(self)@, *key, *value));
                            }
                        }
                        true
                    },
                    None => {
                        proof {
                            assert(!old(self)@[*key].contains(*value));
                        }
                        false
                    },
                }
            },
            None => {
                proof {
                    assert(!old(self)@.dom().contains(*key));
                }
                false
            },
        }
    }

    /// Remove a key with all its values, returning them (each exactly
    /// once, in no particular order) when the key was present.
    pub fn remove_all(&mut self, key: &K) -> (r: Option<Vec<V>>)
        requires
            old(self).wf(),
            obeys_concrete_eq::<K>(),
        ensures
            final(self).wf(),
            match r {
                Some(vs) => {
                    &&& old(self)@.dom().contains(*key)
                    &&& vs@.to_set() == old(self)@[*key]
                    &&& vs@.no_duplicates()
                    &&& final(self)@ == old(self)@.remove(*key)
                    &&& final(self).spec_total_len() + vs@.len() == old(self).spec_total_len()
                },
                None => {
                    &&& !old(self)@.dom().contains(*key)
                    &&& final(self)@ == old(self)@
                    &&& final(self).spec_total_len() == old(self).spec_total_len()
                },
            },
    {
        match self.find_key(key) {
            Some(i) => {
                let ghost s0 = self.entries@;
                proof {
                    assert(self.has_key(*key));
                    assert(self.spec_key_idx(*key) == i) by {
                        let j = self.spec_key_idx(*key);
                        if j != i {
                            assert(self.entries@[i as int].0 == *key);
                        }
                    }
                    lemma_total_len_remove(s0, i as int);
                }
                let (_, vs) = self.entries.remove(i);
                proof {
                    let s1 = self.entries@;
                    assert forall|k2: K| #[trigger] final(self).has_key(k2) <==> (old(self).has_key(k2) && k2 != *key) by {
                        if final(self).has_key(k2) {
                            let t = choose|t: int| 0 <= t < s1.len() && #[trigger] s1[t].0 == k2;
                            if t < i {
                                assert(s0[t].0 == k2);
                            } else {
                                assert(s0[t + 1].0 == k2);
                            }
                        }
                        if old(self).has_key(k2) && k2 != *key {
                            let t = choose|t: int| 0 <= t < s0.len() && #[trigger] s0[t].0 == k2;
                            if t < i {
                                assert(s1[t].0 == k2);
                            } else {
                                assert(t != i);
                                assert(s1[t - 1].0 == k2);
                            }
                        }
                    }
                    assert forall|k2: K| final(self).has_key(k2) implies #[trigger] final(self)@[k2] == old(self)@.remove(*key)[k2] by {
                        let t1 = final(self).spec_key_idx(k2);
                        let t0 = old(self).spec_key_idx(k2);
                        assert(s1[t1].0 == k2 && s0[t0].0 == k2);
                        if t1 < i {
                            if t0 != t1 {
                                assert(s0[t1].0 == k2);
                            }
                            assert(s1[t1] == s0[t1]);
                        } else {
                            if t0 != t1 + 1 {
                                assert(s0[t1 + 1].0 == k2);
                            }
                            assert(s1[t1] == s0[t1 + 1]);
                        }
                    }
                    assert(final(self)@ =~= old(self)@.remove(*key));
                }
                Some(vs)
            },
            None => None,
        }
    }

    /// The values stored under `key`, each exactly once; an unknown key
    /// yields an empty list, not an error.
    pub fn get(&self, key: &K) -> (r: Vec<V>)
        requires
            self.wf(),
            obeys_concrete_eq::<K>(),
        ensures
            self@.dom().contains(*key) ==> r@.to_set() == self@[*key] && r@.no_duplicates(),
            !self@.dom().contains(*key) ==> r@.len() == 0,
    {
        match self.find_key(key) {
            Some(i) => {
                proof {
                    assert(self.has_key(*key));
                    assert(self.spec_key_idx(*key) == i) by {
                        let j = self.spec_key_idx(*key);
                        if j != i {
                            assert(self.entries@[i as int].0 == *key);
                        }
                    }
                }
                let vs = &self.entries[i].1;
                let n = vs.len();
                let mut r: Vec<V> = Vec::new();
                let mut j: usize = 0;
                while j < n
                    invariant
                        n == vs@.len(),
                        j <= n,
                        r@ == vs@.subrange(0, j as int),
                    decreases n - j,
                {
                    r.push(vs[j]);
                    proof {
                        assert(r@ =~= vs@.subrange(0, j + 1));
                    }
                    j = j + 1;
                }
                proof {
                    assert(r@ =~= vs@);
                }
                r
            },
            None => Vec::new(),
        }
    }

    /// True iff the pair `(key, value)` is present.
    pub fn contains(&self, key: &K, value: &V) -> (r: bool)
        requires
            self.wf(),
            obeys_concrete_eq::<K>(),
            obeys_concrete_eq::<V>(),
        ensures
            r == multimap_contains(self@, *key, *value),
    {
        match self.find_key(key) {
            Some(i) => {
                proof {
                    assert(self.has_key(*key));
                    assert(self.spec_key_idx(*key) == i) by {
                        let j = self.spec_key_idx(*key);
                        if j != i {
                            assert(self.entries@[i as int].0 == *key);
                        }
                    }
                }
                match Self::find_val(&self.entries[i].1, value) {
                    Some(_) => true,
                    None => false,
                }
            },
            None => false,
        }
    }

    /// True iff `key` is present (with at least one value).
    pub fn contains_key(&self, key: &K) -> (r: bool)
        requires
            self.wf(),
            obeys_concrete_eq::<K>(),
        ensures
            r == self@.dom().contains(*key),
    {
        match self.find_key(key) {
            Some(_) => true,
            None => false,
        }
    }

    /// The number of values stored under `key`; 0 for an unknown key.
    pub fn len_of(&self, key: &K) -> (r: usize)
        requires
            self.wf(),
            obeys_concrete_eq::<K>(),
        ensures
            self@.dom().contains(*key) ==> r == self@[*key].len(),
            !self@.dom().contains(*key) ==> r == 0,
    {
        match self.find_key(key) {
            Some(i) => {
                proof {
                    assert(self.has_key(*key));
                    assert(self.spec_key_idx(*key) == i) by {
                        let j = self.spec_key_idx(*key);
                        if j != i {
                            assert(self.entries@[i as int].0 == *key);
                        }
                    }
                    self.entries@[i as int].1@.unique_seq_to_set();
                }
                self.entries[i].1.len()
            },
            None => 0,
        }
    }

    /// Number of distinct keys in the index.
    pub fn keys_len(&self) -> (r: usize)
        requires
            self.wf(),
        ensures
            r == self.spec_keys_len(),
            r == self@.dom().len(),
    {
        proof {
            self.lemma_keys_len_is_dom_len();
        }
        self.entries.len()
    }

    /// The number of distinct keys equals the cardinality of the view's
    /// domain.
    proof fn lemma_keys_len_is_dom_len(&self)
        requires
            self.wf(),
        ensures
            self.spec_keys_len() == self@.dom().len(),
    {
        let ks = self.entries@.map_values(|e: (K, Vec<V>)| e.0);
        assert(ks.no_duplicates()) by {
            assert forall|i: int, j: int| 0 <= i < j < ks.len() implies ks[i] != ks[j] by {
                assert(ks[i] == self.entries@[i].0 && ks[j] == self.entries@[j].0);
            }
        }
        ks.unique_seq_to_set();
        assert forall|k: K| #[trigger] self@.dom().contains(k) implies ks.to_set().contains(k) by {
            let i = self.spec_key_idx(k);
            assert(ks[i] == k);
        }
        assert forall|k: K| ks.to_set().contains(k) implies self@.dom().contains(k) by {
            let i = choose|i: int| 0 <= i < ks.len() && ks[i] == k;
            assert(self.entries@[i].0 == k);
        }
        assert(self@.dom() =~= ks.to_set());
    }

    /// Total number of values stored, over all keys: at least one per
    /// present key, and zero exactly when the index is empty.
    pub fn total_values_len(&self) -> (r: usize)
        requires
            self.wf(),
        ensures
            r == self.spec_total_len(),
            r >= self.spec_keys_len(),
            (r == 0) <==> (self.spec_keys_len() == 0),
    {
        proof {
            lemma_groups_total_at_least_count(self.entries@);
        }
        let n = self.entries.len();
        let mut acc: usize = 0;
        let mut i: usize = 0;
        while i < n
            invariant
                self.wf(),
                n == self.entries@.len(),
                i <= n,
                acc == total_len(self.entries@.subrange(0, i as int)),
            decreases n - i,
        {
            proof {
                assert(self.entries@.subrange(0, i + 1).drop_last() =~= self.entries@.subrange(
                    0,
                    i as int,
                ));
                lemma_total_len_prefix(self.entries@, i + 1);
            }
            acc = acc + self.entries[i].1.len();
            i = i + 1;
        }
        proof {
            assert(self.entries@.subrange(0, n as int) =~= self.entries@);
        }
        acc
    }

    /// True iff the index holds no key at all; equivalently, iff the
    /// multimap is the empty map.
    pub fn is_empty(&self) -> (r: bool)
        requires
            self.wf(),
        ensures
            r == (self.spec_keys_len() == 0),
            r == (self@ == Map::<K, Set<V>>::empty()),
    {
        let r = self.entries.len() == 0;
        proof {
            if r {
                assert(self@ =~= Map::<K, Set<V>>::empty());
            } else {
                assert(self@.dom().contains(self.entries@[0].0));
            }
        }
        r
    }

    /// Drop every entry.
    pub fn clear(&mut self)
        requires
            old(self).wf(),
        ensures
            final(self).wf(),
            final(self)@ == Map::<K, Set<V>>::empty(),
            final(self).spec_keys_len() == 0,
            final(self).spec_total_len() == 0,
    {
        self.entries.clear();
        proof {
            assert(final(self)@ =~= Map::<K, Set<V>>::empty());
        }
    }

    /// References to all keys, each exactly once.
    pub fn keys(&self) -> (r: Vec<&K>)
        requires
            self.wf(),
        ensures
            r@.len() == self.spec_keys_len(),
            forall|j: int| 0 <= j < r@.len() ==> self@.dom().contains(*#[trigger] r@[j]),
            forall|k: K|
                #[trigger] self@.dom().contains(k) ==> exists|j: int|
                    0 <= j < r@.len() && *r@[j] == k,
    {
        let n = self.entries.len();
        let mut r: Vec<&K> = Vec::new();
        let mut i: usize = 0;
        while i < n
            invariant
                self.wf(),
                n == self.entries@.len(),
                i <= n,
                r@.len() == i,
                forall|t: int| 0 <= t < i ==> *#[trigger] r@[t] == self.entries@[t].0,
            decreases n - i,
        {
            let e = &self.entries[i];
            r.push(&e.0);
            i = i + 1;
        }
        proof {
            assert forall|j: int| 0 <= j < r@.len() implies self@.dom().contains(
                *#[trigger] r@[j],
            ) by {
                assert(self.entries@[j].0 == *r@[j]);
            }
            assert forall|k: K| #[trigger] self@.dom().contains(k) implies exists|j: int|
                0 <= j < r@.len() && *r@[j] == k by {
                let t = self.spec_key_idx(k);
                assert(*r@[t] == k);
            }
        }
        r
    }

    /// All (key, values) groups, each key exactly once, the values of
    /// each key exactly once.
    pub fn iter(&self) -> (r: Vec<(&K, Vec<V>)>)
        requires
            self.wf(),
        ensures
            r@.len() == self.spec_keys_len(),
            forall|j: int|
                0 <= j < r@.len() ==> self@.dom().contains(*#[trigger] r@[j].0) && r@[j].1@.to_set() == self@[*r@[j].0] && r@[j].1@.no_duplicates(),
            forall|k: K|
                #[trigger] self@.dom().contains(k) ==> exists|j: int|
                    0 <= j < r@.len() && *r@[j].0 == k,
    {
        let n = self.entries.len();
        let mut r: Vec<(&K, Vec<V>)> = Vec::new();
        let mut i: usize = 0;
        while i < n
            invariant
                self.wf(),
                n == self.entries@.len(),
                i <= n,
                r@.len() == i,
                forall|t: int|
                    0 <= t < i ==> *#[trigger] r@[t].0 == self.entries@[t].0 && r@[t].1@
                        == self.entries@[t].1@,
            decreases n - i,
        {
            let e = &self.entries[i];
            let vs = &e.1;
            let m = vs.len();
            let mut copy: Vec<V> = Vec::new();
            let mut j: usize = 0;
            while j < m
                invariant
                    m == vs@.len(),
                    j <= m,
                    copy@ == vs@.subrange(0, j as int),
                decreases m - j,
            {
                copy.push(vs[j]);
                proof {
                    assert(copy@ =~= vs@.subrange(0, j + 1));
                }
                j = j + 1;
            }
            proof {
                assert(copy@ =~= vs@);
            }
            r.push((&e.0, copy));
            i = i + 1;
        }
        proof {
            assert forall|j: int|
                0 <= j < r@.len() implies self@.dom().contains(*#[trigger] r@[j].0) && r@[j].1@.to_set() == self@[*r@[j].0] && r@[j].1@.no_duplicates() by {
                assert(self.entries@[j].0 == *r@[j].0);
                let t = self.spec_key_idx(*r@[j].0);
                if t != j {
                    assert(self.entries@[j].0 == self.entries@[t].0);
                }
            }
            assert forall|k: K| #[trigger] self@.dom().contains(k) implies exists|j: int|
                0 <= j < r@.len() && *r@[j].0 == k by {
                let t = self.spec_key_idx(k);
                assert(*r@[t].0 == k);
            }
        }
        r
    }
}

/// An exact-match index over vertex ids.
pub type VertexHashIndex<K> = HashIndex<K, crate::id::VertexId>;

/// An exact-match index over edge ids.
pub type EdgeHashIndex<K> = HashIndex<K, crate::id::EdgeId>;

} // verus!
