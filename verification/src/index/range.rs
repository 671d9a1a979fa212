//! The ordered multimap index: the same key-to-value-set contract as the
//! exact-match index, but keyed by an orderable type and kept in
//! ascending key order, so that interval queries with any combination of
//! inclusive, exclusive and unbounded ends can be answered in key order.
//!
//! The contracts take the standard-library comparison laws as premises
//! (`obeys_cmp`, `obeys_concrete_eq`): executable comparison on keys must
//! agree with its specification and be a total order, as it is for the
//! integer types.

use vstd::prelude::*;

use core::cmp::Ordering;
use vstd::laws_cmp::obeys_cmp;
use vstd::laws_eq::obeys_concrete_eq;
use vstd::std_specs::cmp::{OrdSpec, PartialOrdSpec};

use super::hash::{
    groups_total, lemma_groups_total_at_least_count, lemma_groups_total_matches,
    lemma_push_to_set, lemma_remove_to_set,
    lemma_total_len_prefix, lemma_total_len_push, lemma_total_len_remove, lemma_total_len_update,
    multimap_contains, multimap_insert, multimap_remove, total_len,
};

verus! {

/// Strict key order: `a` comes before `b`.
pub open spec fn key_lt<K: Ord>(a: K, b: K) -> bool {
    a.cmp_spec(&b) == Ordering::Less
}

/// One end of a key interval: a closed end, an open end, or no end.
pub enum KeyBound<K> {
    /// The interval includes this key.
    Included(K),
    /// The interval excludes this key but includes everything beyond it.
    Excluded(K),
    /// The interval does not stop at this end.
    Unbounded,
}

/// True iff `k` lies above the lower bound `lo`.
pub open spec fn above_lower<K: Ord>(lo: KeyBound<K>, k: K) -> bool {
    match lo {
        KeyBound::Included(x) => !key_lt(k, x),
        KeyBound::Excluded(x) => key_lt(x, k),
        KeyBound::Unbounded => true,
    }
}

/// True iff `k` lies below the upper bound `hi`.
pub open spec fn below_upper<K: Ord>(hi: KeyBound<K>, k: K) -> bool {
    match hi {
        KeyBound::Included(x) => !key_lt(x, k),
        KeyBound::Excluded(x) => key_lt(k, x),
        KeyBound::Unbounded => true,
    }
}

/// True iff `k` lies in the interval from `lo` to `hi`.
pub open spec fn in_bounds<K: Ord>(lo: KeyBound<K>, hi: KeyBound<K>, k: K) -> bool {
    above_lower(lo, k) && below_upper(hi, k)
}

/// The values of an ordered association list whose keys lie in the
/// interval, concatenated in list order.
pub open spec fn range_values<K: Ord, V>(
    s: Seq<(K, Seq<V>)>,
    lo: KeyBound<K>,
    hi: KeyBound<K>,
) -> Seq<V>
    decreases s.len(),
{
    if s.len() == 0 {
        Seq::empty()
    } else {
        range_values(s.drop_last(), lo, hi) + if in_bounds(lo, hi, s.last().0) {
            s.last().1
        } else {
            Seq::empty()
        }
    }
}

proof fn lemma_range_values_push<K: Ord, V>(
    s: Seq<(K, Seq<V>)>,
    p: (K, Seq<V>),
    lo: KeyBound<K>,
    hi: KeyBound<K>,
)
    ensures
        range_values(s.push(p), lo, hi) == range_values(s, lo, hi) + (if in_bounds(lo, hi, p.0) {
            p.1
        } else {
            Seq::<V>::empty()
        }),
{
    assert(s.push(p).drop_last() =~= s);
}

/// A value appears in a range query's result iff some key in the
/// interval holds it.
pub proof fn lemma_range_values_membership<K: Ord, V>(
    s: Seq<(K, Seq<V>)>,
    lo: KeyBound<K>,
    hi: KeyBound<K>,
    v: V,
)
    ensures
        range_values(s, lo, hi).contains(v) <==> exists|i: int|
            0 <= i < s.len() && in_bounds(lo, hi, #[trigger] s[i].0) && s[i].1.contains(v),
    decreases s.len(),
{
    if s.len() > 0 {
        lemma_range_values_membership(s.drop_last(), lo, hi, v);
        let rest = range_values(s.drop_last(), lo, hi);
        let tail = if in_bounds(lo, hi, s.last().0) {
            s.last().1
        } else {
            Seq::<V>::empty()
        };
        assert forall|x: V| (rest + tail).contains(x) implies rest.contains(x) || tail.contains(x) by {
            let j = choose|j: int| 0 <= j < (rest + tail).len() && (rest + tail)[j] == x;
            if j < rest.len() {
                assert(rest[j] == x);
            } else {
                assert(tail[j - rest.len()] == x);
            }
        }
        if rest.contains(v) || tail.contains(v) {
            assert((rest + tail).contains(v)) by {
                if rest.contains(v) {
                    let j = choose|j: int| 0 <= j < rest.len() && rest[j] == v;
                    assert((rest + tail)[j] == v);
                } else {
                    let j = choose|j: int| 0 <= j < tail.len() && tail[j] == v;
                    assert((rest + tail)[rest.len() + j] == v);
                }
            }
        }
        if range_values(s, lo, hi).contains(v) {
            if rest.contains(v) {
                let i = choose|i: int|
                    0 <= i < s.drop_last().len() && in_bounds(
                        lo,
                        hi,
                        #[trigger] s.drop_last()[i].0,
                    ) && s.drop_last()[i].1.contains(v);
                assert(in_bounds(lo, hi, s[i].0) && s[i].1.contains(v));
            } else {
                assert(in_bounds(lo, hi, s[s.len() - 1].0) && s[s.len() - 1].1.contains(v));
            }
        }
        if exists|i: int|
            0 <= i < s.len() && in_bounds(lo, hi, #[trigger] s[i].0) && s[i].1.contains(v) {
            let i = choose|i: int|
                0 <= i < s.len() && in_bounds(lo, hi, #[trigger] s[i].0) && s[i].1.contains(v);
            if i < s.len() - 1 {
                assert(in_bounds(lo, hi, s.drop_last()[i].0) && s.drop_last()[i].1.contains(v));
            }
        }
    }
}

/// Consequences of the comparison laws used throughout: executable
/// comparison is a total order whose `Equal` case is logical equality.
proof fn lemma_cmp_properties<K: Ord>()
    requires
        obeys_cmp::<K>(),
        obeys_concrete_eq::<K>(),
    ensures
        forall|a: K, b: K| (#[trigger] a.cmp_spec(&b) == Ordering::Equal) <==> a == b,
        forall|a: K, b: K|
            (#[trigger] a.cmp_spec(&b) == Ordering::Less) <==> (#[trigger] b.cmp_spec(&a)
                == Ordering::Greater),
        forall|a: K, b: K, c: K|
            (#[trigger] a.cmp_spec(&b)) == Ordering::Less && (#[trigger] b.cmp_spec(&c))
                == Ordering::Less ==> a.cmp_spec(&c) == Ordering::Less,
{
    reveal(vstd::laws_cmp::obeys_cmp_ord);
    reveal(vstd::laws_cmp::obeys_cmp_partial_ord);
    reveal(vstd::laws_cmp::obeys_partial_cmp_spec_properties);
    reveal(vstd::laws_eq::obeys_concrete_eq);
    assert forall|a: K, b: K| (#[trigger] a.cmp_spec(&b) == Ordering::Equal) <==> a == b by {
        assert(a.partial_cmp_spec(&b) == Some(a.cmp_spec(&b)));
    }
    assert forall|a: K, b: K|
        (#[trigger] a.cmp_spec(&b) == Ordering::Less) <==> (#[trigger] b.cmp_spec(&a)
            == Ordering::Greater) by {
        assert(a.partial_cmp_spec(&b) == Some(a.cmp_spec(&b)));
        assert(b.partial_cmp_spec(&a) == Some(b.cmp_spec(&a)));
    }
    assert forall|a: K, b: K, c: K|
        (#[trigger] a.cmp_spec(&b)) == Ordering::Less && (#[trigger] b.cmp_spec(&c))
            == Ordering::Less implies a.cmp_spec(&c) == Ordering::Less by {
        assert(a.partial_cmp_spec(&b) == Some(a.cmp_spec(&b)));
        assert(b.partial_cmp_spec(&c) == Some(b.cmp_spec(&c)));
        assert(a.partial_cmp_spec(&c) == Some(a.cmp_spec(&c)));
    }
}

/// A borrowed interval end, used internally so the single-ended queries
/// can share the range scan without cloning keys.
enum BoundRef<'a, K> {
    Included(&'a K),
    Excluded(&'a K),
    Unbounded,
}

impl<'a, K> BoundRef<'a, K> {
    /// The owned bound this borrowed end stands for.
    spec fn owned(self) -> KeyBound<K> {
        match self {
            BoundRef::Included(x) => KeyBound::Included(*x),
            BoundRef::Excluded(x) => KeyBound::Excluded(*x),
            BoundRef::Unbounded => KeyBound::Unbounded,
        }
    }
}

/// The ordered multimap index. The view `self@` is the association list
/// of (key, values) groups in ascending key order; `as_multimap()` is
/// the same data as a `Map<K, Set<V>>`, satisfying the same insertion
/// and removal contracts as the exact-match index.
#[derive(Debug)]
pub struct RangeIndex<K, V> {
    entries: Vec<(K, Vec<V>)>,
}

impl<K: Ord, V: Eq + Copy> RangeIndex<K, V> {
    /// The ordered association list held by the index.
    pub closed spec fn view(&self) -> Seq<(K, Seq<V>)> {
        self.entries@.map_values(|e: (K, Vec<V>)| (e.0, e.1@))
    }

    /// True iff some group carries the key `k`.
    pub open spec fn has_key(&self, k: K) -> bool {
        exists|i: int| 0 <= i < self@.len() && (#[trigger] self@[i].0) == k
    }

    /// The position of the group carrying `k`, when `has_key(k)`.
    pub open spec fn spec_key_idx(&self, k: K) -> int {
        choose|i: int| 0 <= i < self@.len() && (#[trigger] self@[i].0) == k
    }

    /// The same data as an unordered multimap.
    pub open spec fn as_multimap(&self) -> Map<K, Set<V>> {
        Map::new(|k: K| self.has_key(k), |k: K| self@[self.spec_key_idx(k)].1.to_set())
    }

    /// Internal well-formedness: keys strictly ascending (hence pairwise
    /// distinct), no empty groups, no duplicate values within a group,
    /// and the total number of stored values fits in `usize`.
    pub closed spec fn wf(&self) -> bool {
        &&& forall|i: int, j: int|
            0 <= i < j < self.entries@.len() ==> key_lt(
                (#[trigger] self.entries@[i]).0,
                (#[trigger] self.entries@[j]).0,
            )
        &&& forall|i: int|
            0 <= i < self.entries@.len() ==> (#[trigger] self.entries@[i]).1@.len() > 0
        &&& forall|i: int|
            0 <= i < self.entries@.len() ==> (#[trigger] self.entries@[i]).1@.no_duplicates()
        &&& total_len(self.entries@) <= usize::MAX
    }

    /// Number of distinct keys.
    pub closed spec fn spec_keys_len(&self) -> nat {
        self.entries@.len()
    }

    /// Total number of stored values over all keys.
    pub closed spec fn spec_total_len(&self) -> nat {
        total_len(self.entries@)
    }

    /// The groups are in strictly ascending key order, none is empty, and
    /// none holds a value twice.
    pub proof fn lemma_view_properties(&self)
        requires
            self.wf(),
        ensures
            forall|i: int, j: int|
                0 <= i < j < self@.len() ==> key_lt((#[trigger] self@[i]).0, (#[trigger] self@[j]).0),
            forall|i: int| 0 <= i < self@.len() ==> (#[trigger] self@[i]).1.len() > 0,
            forall|i: int| 0 <= i < self@.len() ==> (#[trigger] self@[i]).1.no_duplicates(),
    {
    }

    /// No key is ever present with an empty value set.
    pub proof fn lemma_no_empty_keys(&self)
        requires
            self.wf(),
        ensures
            forall|k: K|
                #[trigger] self.as_multimap().dom().contains(k) ==> self.as_multimap()[k].finite()
                    && self.as_multimap()[k].len() > 0,
    {
        assert forall|k: K| #[trigger] self.as_multimap().dom().contains(k) implies self.as_multimap()[k].finite()
            && self.as_multimap()[k].len() > 0 by {
            let i = self.spec_key_idx(k);
            let vs = self@[i].1;
            vs.lemma_cardinality_of_set();
            assert(vs.to_set().contains(vs[0]));
            assert(vs.to_set().len() != 0);
        }
    }

    /// A pair is in the multimap exactly when some group of the ordered
    /// view carries it; this ties the interval queries, whose contracts
    /// read the ordered view, back to the multimap that the insertion
    /// and removal contracts speak of.
    pub proof fn lemma_multimap_membership(&self, k: K, v: V)
        requires
            self.wf(),
            obeys_cmp::<K>(),
            obeys_concrete_eq::<K>(),
        ensures
            multimap_contains(self.as_multimap(), k, v) <==> exists|i: int|
                0 <= i < self@.len() && (#[trigger] self@[i]).0 == k && self@[i].1.contains(v),
    {
        lemma_cmp_properties::<K>();
        if multimap_contains(self.as_multimap(), k, v) {
            let i = self.spec_key_idx(k);
            assert(0 <= i < self@.len() && self@[i].0 == k && self@[i].1.contains(v));
        }
        if exists|i: int|
            0 <= i < self@.len() && (#[trigger] self@[i]).0 == k && self@[i].1.contains(v) {
            let i = choose|i: int|
                0 <= i < self@.len() && (#[trigger] self@[i]).0 == k && self@[i].1.contains(v);
            assert(self.has_key(k));
            let j = self.spec_key_idx(k);
            assert(self@[j].0 == k);
            if i != j {
                assert(key_lt(self.entries@[i].0, self.entries@[j].0) || key_lt(
                    self.entries@[j].0,
                    self.entries@[i].0,
                ));
            }
            assert(self.as_multimap()[k].contains(v));
        }
    }

    /// The counters agree with the ordered view: the key count is the
    /// number of groups, and the value total is the sum of the group
    /// sizes.
    pub proof fn lemma_view_counts(&self)
        requires
            self.wf(),
        ensures
            self.spec_keys_len() == self@.len(),
            self.spec_total_len() == groups_total(self@),
    {
        lemma_groups_total_matches(self.entries@);
    }

    /// An empty index.
    pub fn new() -> (r: Self)
        ensures
            r.wf(),
            r@ == Seq::<(K, Seq<V>)>::empty(),
            r.as_multimap() == Map::<K, Set<V>>::empty(),
            r.spec_keys_len() == 0,
            r.spec_total_len() == 0,
    {
        let r = RangeIndex { entries: Vec::new() };
        proof {
            assert(r@ =~= Seq::<(K, Seq<V>)>::empty());
            assert(r.as_multimap() =~= Map::<K, Set<V>>::empty());
        }
        r
    }

    /// The position of the first key not below `key`, and whether that
    /// position carries `key` itself.
    fn find_pos(&self, key: &K) -> (r: (usize, bool))
        requires
            self.wf(),
            obeys_cmp::<K>(),
            obeys_concrete_eq::<K>(),
        ensures
            r.0 <= self.entries@.len(),
            r.1 ==> r.0 < self.entries@.len() && self.entries@[r.0 as int].0 == *key,
            !r.1 ==> forall|i: int|
                0 <= i < self.entries@.len() ==> (#[trigger] self.entries@[i].0) != *key,
            forall|i: int| 0 <= i < r.0 ==> key_lt((#[trigger] self.entries@[i]).0, *key),
            forall|i: int|
                r.0 <= i < self.entries@.len() && !(r.1 && i == r.0) ==> key_lt(
                    *key,
                    (#[trigger] self.entries@[i]).0,
                ),
    {
        proof {
            lemma_cmp_properties::<K>();
        }
        let n = self.entries.len();
        let mut i: usize = 0;
        while i < n
            invariant
                self.wf(),
                obeys_cmp::<K>(),
                obeys_concrete_eq::<K>(),
                n == self.entries@.len(),
                i <= n,
                forall|j: int| 0 <= j < i ==> key_lt((#[trigger] self.entries@[j]).0, *key),
            decreases n - i,
        {
            let c = self.entries[i].0.cmp(key);
            proof {
                reveal(vstd::laws_cmp::obeys_cmp_ord);
                lemma_cmp_properties::<K>();
            }
            match c {
                Ordering::Less => {
                    i = i + 1;
                },
                Ordering::Equal => {
                    proof {
                        assert(self.entries@[i as int].0 == *key);
                        assert forall|j: int|
                            i < j < n implies key_lt(*key, (#[trigger] self.entries@[j]).0) by {
                            assert(key_lt(self.entries@[i as int].0, self.entries@[j].0));
                        }
                    }
                    return (i, true);
                },
                Ordering::Greater => {
                    proof {
                        assert(key_lt(*key, self.entries@[i as int].0));
                        assert forall|j: int|
                            i as int <= j < n implies key_lt(
                            *key,
                            (#[trigger] self.entries@[j]).0,
                        ) by {
                            if j != i {
                                assert(key_lt(self.entries@[i as int].0, self.entries@[j].0));
                            }
                        }
                        assert forall|j: int|
                            0 <= j < n implies (#[trigger] self.entries@[j].0) != *key by {
                            if j < i {
                                assert(key_lt(self.entries@[j].0, *key));
                            } else {
                                assert(key_lt(*key, self.entries@[j].0));
                            }
                        }
                    }
                    return (i, false);
                },
            }
        }
        proof {
            assert forall|j: int| 0 <= j < n implies (#[trigger] self.entries@[j].0) != *key by {
                assert(key_lt(self.entries@[j].0, *key));
            }
        }
        (n, false)
    }

    /// Insert the pair `(key, value)`, keeping the keys in ascending
    /// order. Returns `true` iff the pair was newly added; inserting a
    /// pair that is already present changes nothing and returns `false`.
    pub fn insert(&mut self, key: K, value: V) -> (r: bool)
        requires
            old(self).wf(),
            obeys_cmp::<K>(),
            obeys_concrete_eq::<K>(),
            obeys_concrete_eq::<V>(),
            old(self).spec_total_len() < usize::MAX,
        ensures
            final(self).wf(),
            r == !multimap_contains(old(self).as_multimap(), key, value),
            final(self).as_multimap() == multimap_insert(old(self).as_multimap(), key, value),
            final(self).spec_total_len() == old(self).spec_total_len() + (if r {
                1int
            } else {
                0int
            }),
            final(self).spec_keys_len() == old(self).spec_keys_len() + (if old(self).as_multimap().dom().contains(key) {
                0int
            } else {
                1int
            }),
    {
        proof {
            lemma_cmp_properties::<K>();
        }
        let (pos, found) = self.find_pos(&key);
        if found {
            proof {
                assert(self@[pos as int].0 == key);
                assert(self.has_key(key));
                assert(self.spec_key_idx(key) == pos) by {
                    let j = self.spec_key_idx(key);
                    if j != pos {
                        assert(self@[pos as int].0 == key);
                        assert(key_lt(self@[j].0, self@[pos as int].0) || key_lt(
                            self@[pos as int].0,
                            self@[j].0,
                        ));
                    }
                }
            }
            match Self::find_val(&self.entries[pos].1, &value) {
                Some(_) => {
                    proof {
                        assert(old(self).as_multimap()[key].contains(value));
                        assert(old(self).as_multimap()[key].insert(value) =~= old(self).as_multimap()[key]);
                        assert(multimap_insert(old(self).as_multimap(), key, value) =~= old(self).as_multimap());
                    }
                    false
                },
                None => {
                    let ghost s0 = self.entries@;
                    self.entries[pos].1.push(value);
                    proof {
                        let s1 = self.entries@;
                        assert(s1 =~= s0.update(pos as int, (s0[pos as int].0, s1[pos as int].1)));
                        lemma_total_len_update(s0, pos as int, s1[pos as int]);
                        assert(s1[pos as int].1@ =~= s0[pos as int].1@.push(value));
                        lemma_push_to_set(s0[pos as int].1@, value);
                        assert forall|k2: K| #[trigger] final(self).has_key(k2) <==> old(self).has_key(k2) by {
                            if final(self).has_key(k2) {
                                let t = choose|t: int|
                                    0 <= t < final(self)@.len() && (#[trigger] final(self)@[t].0)
                                        == k2;
                                assert(old(self)@[t].0 == k2);
                            }
                            if old(self).has_key(k2) {
                                let t = choose|t: int|
                                    0 <= t < old(self)@.len() && (#[trigger] old(self)@[t].0)
                                        == k2;
                                assert(final(self)@[t].0 == k2);
                            }
                        }
                        assert forall|k2: K| final(self).has_key(k2) implies #[trigger] final(self).as_multimap()[k2] == multimap_insert(
                            old(self).as_multimap(),
                            key,
                            value,
                        )[k2] by {
                            let t1 = final(self).spec_key_idx(k2);
                            let t0 = old(self).spec_key_idx(k2);
                            assert(final(self)@[t1].0 == k2 && old(self)@[t0].0 == k2);
                            if t1 != t0 {
                                assert(key_lt(old(self)@[t1].0, old(self)@[t0].0) || key_lt(
                                    old(self)@[t0].0,
                                    old(self)@[t1].0,
                                ));
                            }
                        }
                        assert(final(self).as_multimap() =~= multimap_insert(
                            old(self).as_multimap(),
                            key,
                            value,
                        ));
                    }
                    true
                },
            }
        } else {
            let ghost s0 = self.entries@;
            let mut vs: Vec<V> = Vec::new();
            vs.push(value);
            self.entries.insert(pos, (key, vs));
            proof {
                let s1 = self.entries@;
                assert(s1 =~= s0.insert(pos as int, s1[pos as int]));
                assert(!old(self).has_key(key));
                lemma_total_len_insert(s0, pos as int, s1[pos as int]);
                assert(s1[pos as int].1@ =~= Seq::<V>::empty().push(value));
                lemma_push_to_set(Seq::<V>::empty(), value);
                assert(Seq::<V>::empty().to_set() =~= Set::<V>::empty());
                assert(final(self)@[pos as int].0 == key);
                assert(final(self).has_key(key));
                assert forall|k2: K| #[trigger] final(self).has_key(k2) <==> (old(self).has_key(k2)
                    || k2 == key) by {
                    if final(self).has_key(k2) && k2 != key {
                        let t = choose|t: int|
                            0 <= t < final(self)@.len() && (#[trigger] final(self)@[t].0) == k2;
                        if t < pos {
                            assert(old(self)@[t].0 == k2);
                        } else {
                            assert(old(self)@[t - 1].0 == k2);
                        }
                    }
                    if old(self).has_key(k2) {
                        let t = choose|t: int|
                            0 <= t < old(self)@.len() && (#[trigger] old(self)@[t].0) == k2;
                        if t < pos {
                            assert(final(self)@[t].0 == k2);
                        } else {
                            assert(final(self)@[t + 1].0 == k2);
                        }
                    }
                }
                assert forall|k2: K| final(self).has_key(k2) implies #[trigger] final(self).as_multimap()[k2] == multimap_insert(old(self).as_multimap(), key, value)[k2] by {
                    let t1 = final(self).spec_key_idx(k2);
                    assert(final(self)@[t1].0 == k2);
                    if k2 == key {
                        assert(t1 == pos) by {
                            if t1 != pos {
                                assert(key_lt(
                                    final(self)@[t1].0,
                                    final(self)@[pos as int].0,
                                ) || key_lt(final(self)@[pos as int].0, final(self)@[t1].0));
                            }
                        }
                    } else {
                        let t0 = old(self).spec_key_idx(k2);
                        assert(old(self)@[t0].0 == k2);
                        let u = if t1 < pos {
                            t1
                        } else {
                            t1 - 1
                        };
                        assert(t1 != pos) by {
                            if t1 == pos {
                                assert(final(self)@[t1].0 == key);
                            }
                        }
                        assert(old(self)@[u].0 == k2);
                        if u != t0 {
                            assert(key_lt(old(self)@[u].0, old(self)@[t0].0) || key_lt(
                                old(self)@[t0].0,
                                old(self)@[u].0,
                            ));
                        }
                        assert(final(self)@[t1].1 == old(self)@[u].1);
                    }
                }
                assert(final(self).as_multimap() =~= multimap_insert(
                    old(self).as_multimap(),
                    key,
                    value,
                ));
                assert forall|i: int, j: int|
                    0 <= i < j < s1.len() implies key_lt(
                    (#[trigger] s1[i]).0,
                    (#[trigger] s1[j]).0,
                ) by {
                    if j < pos {
                        assert(s1[i] == s0[i] && s1[j] == s0[j]);
                    } else if i > pos {
                        assert(s1[i] == s0[i - 1] && s1[j] == s0[j - 1]);
                    } else if i < pos && j == pos {
                        assert(s1[i] == s0[i]);
                        assert(key_lt(s0[i].0, key));
                    } else if i == pos {
                        assert(s1[j] == s0[j - 1]);
                        assert(key_lt(key, s0[j - 1].0));
                    } else {
                        assert(s1[i] == s0[i]);
                        assert(s1[j] == s0[j - 1]);
                        assert(key_lt(s0[i].0, key) && key_lt(key, s0[j - 1].0));
                    }
                }
            }
            true
        }
    }

    /// The position of `v` inside `vs`, if any.
    fn find_val(vs: &Vec<V>, v: &V) -> (r: Option<usize>)
        requires
            obeys_concrete_eq::<V>(),
        ensures
            match r {
                Some(p) => 0 <= p < vs@.len() && vs@[p as int] == *v,
                None => forall|j: int| 0 <= j < vs@.len() ==> (#[trigger] vs@[j]) != *v,
            },
    {
        let n = vs.len();
        let mut j: usize = 0;
        while j < n
            invariant
                obeys_concrete_eq::<V>(),
                n == vs@.len(),
                j <= n,
                forall|t: int| 0 <= t < j ==> (#[trigger] vs@[t]) != *v,
            decreases n - j,
        {
            let hit = vs[j] == *v;
            proof {
                reveal(vstd::laws_eq::obeys_concrete_eq);
            }
            if hit {
                return Some(j);
            }
            j = j + 1;
        }
        None
    }

    /// Remove the pair `(key, value)`. Returns `true` iff the pair was
    /// present; when its removal empties the group under `key`, the key
    /// is deleted.
    pub fn remove(&mut self, key: &K, value: &V) -> (r: bool)
        requires
            old(self).wf(),
            obeys_cmp::<K>(),
            obeys_concrete_eq::<K>(),
            obeys_concrete_eq::<V>(),
        ensures
            final(self).wf(),
            r == multimap_contains(old(self).as_multimap(), *key, *value),
            final(self).as_multimap() == multimap_remove(old(self).as_multimap(), *key, *value),
            final(self).spec_total_len() == old(self).spec_total_len() - (if r {
                1int
            } else {
                0int
            }),
    {
        proof {
            lemma_cmp_properties::<K>();
        }
        let (pos, found) = self.find_pos(key);
        if !found {
            proof {
                assert(!old(self).has_key(*key));
                assert(!old(self).as_multimap().dom().contains(*key));
            }
            return false;
        }
        proof {
            assert(self@[pos as int].0 == *key);
            assert(self.has_key(*key));
            assert(self.spec_key_idx(*key) == pos) by {
                let j = self.spec_key_idx(*key);
                if j != pos {
                    assert(key_lt(self@[j].0, self@[pos as int].0) || key_lt(
                        self@[pos as int].0,
                        self@[j].0,
                    ));
                }
            }
        }
        match Self::find_val(&self.entries[pos].1, value) {
            Some(p) => {
                let ghost s0 = self.entries@;
                if self.entries[pos].1.len() == 1 {
                    proof {
                        lemma_total_len_remove(s0, pos as int);
                        assert(s0[pos as int].1@[p as int] == *value);
                        assert(s0[pos as int].1@ =~= Seq::<V>::empty().push(*value));
                        lemma_push_to_set(Seq::<V>::empty(), *value);
                        assert(Seq::<V>::empty().to_set() =~= Set::<V>::empty());
                        assert(s0[pos as int].1@.to_set().remove(*value) =~= Set::<V>::empty());
                    }
                    let _ = self.entries.remove(pos);
                    proof {
                        let s1 = self.entries@;
                        assert forall|k2: K| #[trigger] final(self).has_key(k2) <==> (old(self).has_key(k2) && k2 != *key) by {
                            if final(self).has_key(k2) {
                                let t = choose|t: int|
                                    0 <= t < final(self)@.len() && (#[trigger] final(self)@[t].0)
                                        == k2;
                                if t < pos {
                                    assert(old(self)@[t].0 == k2);
                                    assert(key_lt(s0[t].0, s0[pos as int].0));
                                } else {
                                    assert(old(self)@[t + 1].0 == k2);
                                    assert(key_lt(s0[pos as int].0, s0[t + 1].0));
                                }
                            }
                            if old(self).has_key(k2) && k2 != *key {
                                let t = choose|t: int|
                                    0 <= t < old(self)@.len() && (#[trigger] old(self)@[t].0)
                                        == k2;
                                if t < pos {
                                    assert(final(self)@[t].0 == k2);
                                } else {
                                    assert(t != pos);
                                    assert(final(self)@[t - 1].0 == k2);
                                }
                            }
                        }
                        assert forall|k2: K| final(self).has_key(k2) implies #[trigger] final(self).as_multimap()[k2] == multimap_remove(
                            old(self).as_multimap(),
                            *key,
                            *value,
                        )[k2] by {
                            let t1 = final(self).spec_key_idx(k2);
                            let t0 = old(self).spec_key_idx(k2);
                            assert(final(self)@[t1].0 == k2 && old(self)@[t0].0 == k2);
                            let u = if t1 < pos {
                                t1
                            } else {
                                t1 + 1
                            };
                            assert(old(self)@[u].0 == k2);
                            if u != t0 {
                                assert(key_lt(old(self)@[u].0, old(self)@[t0].0) || key_lt(
                                    old(self)@[t0].0,
                                    old(self)@[u].0,
                                ));
                            }
                            assert(final(self)@[t1].1 == old(self)@[u].1);
                        }
                        assert(final(self).as_multimap() =~= multimap_remove(
                            old(self).as_multimap(),
                            *key,
                            *value,
                        ));
                    }
                } else {
                    proof {
                        lemma_remove_to_set(s0[pos as int].1@, p as int);
                    }
                    let _ = self.entries[pos].1.remove(p);
                    proof {
                        let s1 = self.entries@;
                        assert(s1 =~= s0.update(pos as int, (s0[pos as int].0, s1[pos as int].1)));
                        lemma_total_len_update(s0, pos as int, s1[pos as int]);
                        assert(s1[pos as int].1@ =~= s0[pos as int].1@.remove(p as int));
                        assert(s1[pos as int].1@.to_set() =~= s0[pos as int].1@.to_set().remove(
                            *value,
                        ));
                        assert(s0[pos as int].1@.to_set().remove(*value) != Set::<V>::empty()) by {
                            let vs0 = s0[pos as int].1@;
                            let other = if p == 0 {
                                vs0[1]
                            } else {
                                vs0[0]
                            };
                            assert(vs0.to_set().contains(other));
                            assert(other != *value);
                            assert(vs0.to_set().remove(*value).contains(other));
                        }
                        assert forall|k2: K| #[trigger] final(self).has_key(k2) <==> old(self).has_key(k2) by {
                            if final(self).has_key(k2) {
                                let t = choose|t: int|
                                    0 <= t < final(self)@.len() && (#[trigger] final(self)@[t].0)
                                        == k2;
                                assert(old(self)@[t].0 == k2);
                            }
                            if old(self).has_key(k2) {
                                let t = choose|t: int|
                                    0 <= t < old(self)@.len() && (#[trigger] old(self)@[t].0)
                                        == k2;
                                assert(final(self)@[t].0 == k2);
                            }
                        }
                        assert forall|k2: K| final(self).has_key(k2) implies #[trigger] final(self).as_multimap()[k2] == multimap_remove(
                            old(self).as_multimap(),
                            *key,
                            *value,
                        )[k2] by {
                            let t1 = final(self).spec_key_idx(k2);
                            let t0 = old(self).spec_key_idx(k2);
                            assert(final(self)@[t1].0 == k2 && old(self)@[t0].0 == k2);
                            if t1 != t0 {
                                assert(key_lt(old(self)@[t1].0, old(self)@[t0].0) || key_lt(
                                    old(self)@[t0].0,
                                    old(self)@[t1].0,
                                ));
                            }
                        }
                        assert(final(self).as_multimap() =~= multimap_remove(
                            old(self).as_multimap(),
                            *key,
                            *value,
                        ));
                    }
                }
                true
            },
            None => {
                proof {
                    assert(!old(self).as_multimap()[*key].contains(*value));
                }
                false
            },
        }
    }

    /// The values stored under `key`, each exactly once; an unknown key
    /// yields an empty list.
    pub fn get(&self, key: &K) -> (r: Vec<V>)
        requires
            self.wf(),
            obeys_cmp::<K>(),
            obeys_concrete_eq::<K>(),
        ensures
            self.as_multimap().dom().contains(*key) ==> r@.to_set() == self.as_multimap()[*key]
                && r@.no_duplicates(),
            !self.as_multimap().dom().contains(*key) ==> r@.len() == 0,
    {
        proof {
            lemma_cmp_properties::<K>();
        }
        let (pos, found) = self.find_pos(key);
        if found {
            proof {
                assert(self@[pos as int].0 == *key);
            assert(self.has_key(*key));
                assert(self.spec_key_idx(*key) == pos) by {
                    let j = self.spec_key_idx(*key);
                    if j != pos {
                        assert(key_lt(self@[j].0, self@[pos as int].0) || key_lt(
                            self@[pos as int].0,
                            self@[j].0,
                        ));
                    }
                }
            }
            copied(&self.entries[pos].1)
        } else {
            proof {
                assert(!self.has_key(*key));
            }
            Vec::new()
        }
    }

    /// True iff `key` is present (with at least one value).
    pub fn contains_key(&self, key: &K) -> (r: bool)
        requires
            self.wf(),
            obeys_cmp::<K>(),
            obeys_concrete_eq::<K>(),
        ensures
            r == self.as_multimap().dom().contains(*key),
    {
        let (pos, found) = self.find_pos(key);
        proof {
            if found {
                assert(self@[pos as int].0 == *key);
                assert(self.has_key(*key));
            }
        }
        found
    }

    /// True iff the pair `(key, value)` is present.
    pub fn contains(&self, key: &K, value: &V) -> (r: bool)
        requires
            self.wf(),
            obeys_cmp::<K>(),
            obeys_concrete_eq::<K>(),
            obeys_concrete_eq::<V>(),
        ensures
            r == multimap_contains(self.as_multimap(), *key, *value),
    {
        proof {
            lemma_cmp_properties::<K>();
        }
        let (pos, found) = self.find_pos(key);
        if found {
            proof {
                assert(self@[pos as int].0 == *key);
            assert(self.has_key(*key));
                assert(self.spec_key_idx(*key) == pos) by {
                    let j = self.spec_key_idx(*key);
                    if j != pos {
                        assert(key_lt(self@[j].0, self@[pos as int].0) || key_lt(
                            self@[pos as int].0,
                            self@[j].0,
                        ));
                    }
                }
            }
            match Self::find_val(&self.entries[pos].1, value) {
                Some(_) => true,
                None => false,
            }
        } else {
            false
        }
    }

    /// The number of values stored under `key`; 0 for an unknown key.
    pub fn len_of(&self, key: &K) -> (r: usize)
        requires
            self.wf(),
            obeys_cmp::<K>(),
            obeys_concrete_eq::<K>(),
        ensures
            self.as_multimap().dom().contains(*key) ==> r == self.as_multimap()[*key].len(),
            !self.as_multimap().dom().contains(*key) ==> r == 0,
    {
        proof {
            lemma_cmp_properties::<K>();
        }
        let (pos, found) = self.find_pos(key);
        if found {
            proof {
                assert(self@[pos as int].0 == *key);
            assert(self.has_key(*key));
                assert(self.spec_key_idx(*key) == pos) by {
                    let j = self.spec_key_idx(*key);
                    if j != pos {
                        assert(key_lt(self@[j].0, self@[pos as int].0) || key_lt(
                            self@[pos as int].0,
                            self@[j].0,
                        ));
                    }
                }
                self.entries@[pos as int].1@.unique_seq_to_set();
            }
            self.entries[pos].1.len()
        } else {
            proof {
                assert(!self.has_key(*key));
            }
            0
        }
    }

    /// The values of every key in the interval from `lo` to `hi`, in
    /// ascending key order.
    fn range_scan(&self, lo: BoundRef<'_, K>, hi: BoundRef<'_, K>) -> (r: Vec<V>)
        requires
            self.wf(),
            obeys_cmp::<K>(),
            obeys_concrete_eq::<K>(),
        ensures
            r@ == range_values(self@, lo.owned(), hi.owned()),
    {
        proof {
            lemma_cmp_properties::<K>();
        }
        let n = self.entries.len();
        let mut r: Vec<V> = Vec::new();
        let mut i: usize = 0;
        while i < n
            invariant
                self.wf(),
                obeys_cmp::<K>(),
                obeys_concrete_eq::<K>(),
                n == self.entries@.len(),
                i <= n,
                r@ == range_values(self@.subrange(0, i as int), lo.owned(), hi.owned()),
            decreases n - i,
        {
            proof {
                lemma_cmp_properties::<K>();
                assert(self@.subrange(0, i + 1) =~= self@.subrange(0, i as int).push(
                    self@[i as int],
                ));
                lemma_range_values_push(
                    self@.subrange(0, i as int),
                    self@[i as int],
                    lo.owned(),
                    hi.owned(),
                );
            }
            let k = &self.entries[i].0;
            let lo_ok = match lo {
                BoundRef::Included(x) => match x.cmp(k) {
                    Ordering::Greater => false,
                    _ => true,
                },
                BoundRef::Excluded(x) => match x.cmp(k) {
                    Ordering::Less => true,
                    _ => false,
                },
                BoundRef::Unbounded => true,
            };
            let hi_ok = match hi {
                BoundRef::Included(x) => match k.cmp(x) {
                    Ordering::Greater => false,
                    _ => true,
                },
                BoundRef::Excluded(x) => match k.cmp(x) {
                    Ordering::Less => true,
                    _ => false,
                },
                BoundRef::Unbounded => true,
            };
            proof {
                reveal(vstd::laws_cmp::obeys_cmp_ord);
                assert(lo_ok == above_lower(lo.owned(), self@[i as int].0));
                assert(hi_ok == below_upper(hi.owned(), self@[i as int].0));
            }
            if lo_ok && hi_ok {
                let mut vs = copied(&self.entries[i].1);
                let ghost r0 = r@;
                r.append(&mut vs);
                proof {
                    assert(r@ =~= r0 + self@[i as int].1);
                }
            } else {
                proof {
                    assert(r@ =~= r@ + Seq::<V>::empty());
                }
            }
            i = i + 1;
        }
        proof {
            assert(self@.subrange(0, n as int) =~= self@);
        }
        r
    }

    /// The values of every key in the interval, in ascending key order;
    /// any combination of inclusive, exclusive and unbounded ends.
    pub fn range(&self, lo: &KeyBound<K>, hi: &KeyBound<K>) -> (r: Vec<V>)
        requires
            self.wf(),
            obeys_cmp::<K>(),
            obeys_concrete_eq::<K>(),
        ensures
            r@ == range_values(self@, *lo, *hi),
    {
        let lo_ref = match lo {
            KeyBound::Included(x) => BoundRef::Included(x),
            KeyBound::Excluded(x) => BoundRef::Excluded(x),
            KeyBound::Unbounded => BoundRef::Unbounded,
        };
        let hi_ref = match hi {
            KeyBound::Included(x) => BoundRef::Included(x),
            KeyBound::Excluded(x) => BoundRef::Excluded(x),
            KeyBound::Unbounded => BoundRef::Unbounded,
        };
        self.range_scan(lo_ref, hi_ref)
    }

    /// The values of every key at or above `key`, in ascending key order.
    pub fn from(&self, key: &K) -> (r: Vec<V>)
        requires
            self.wf(),
            obeys_cmp::<K>(),
            obeys_concrete_eq::<K>(),
        ensures
            r@ == range_values(self@, KeyBound::Included(*key), KeyBound::Unbounded),
    {
        self.range_scan(BoundRef::Included(key), BoundRef::Unbounded)
    }

    /// The values of every key at or below `key`, in ascending key order.
    pub fn to(&self, key: &K) -> (r: Vec<V>)
        requires
            self.wf(),
            obeys_cmp::<K>(),
            obeys_concrete_eq::<K>(),
        ensures
            r@ == range_values(self@, KeyBound::Unbounded, KeyBound::Included(*key)),
    {
        self.range_scan(BoundRef::Unbounded, BoundRef::Included(key))
    }

    /// The values of every key strictly above `key`, in ascending key
    /// order.
    pub fn after(&self, key: &K) -> (r: Vec<V>)
        requires
            self.wf(),
            obeys_cmp::<K>(),
            obeys_concrete_eq::<K>(),
        ensures
            r@ == range_values(self@, KeyBound::Excluded(*key), KeyBound::Unbounded),
    {
        self.range_scan(BoundRef::Excluded(key), BoundRef::Unbounded)
    }

    /// The values of every key strictly below `key`, in ascending key
    /// order.
    pub fn before(&self, key: &K) -> (r: Vec<V>)
        requires
            self.wf(),
            obeys_cmp::<K>(),
            obeys_concrete_eq::<K>(),
        ensures
            r@ == range_values(self@, KeyBound::Unbounded, KeyBound::Excluded(*key)),
    {
        self.range_scan(BoundRef::Unbounded, BoundRef::Excluded(key))
    }

    /// The smallest and largest keys, or `None` when the index is empty.
    pub fn range_bounds(&self) -> (r: Option<(&K, &K)>)
        requires
            self.wf(),
            obeys_cmp::<K>(),
            obeys_concrete_eq::<K>(),
        ensures
            match r {
                Some(p) => {
                    &&& self@.len() > 0
                    &&& *p.0 == self@[0].0
                    &&& *p.1 == self@[self@.len() - 1].0
                    &&& forall|i: int| 0 <= i < self@.len() ==> !key_lt((#[trigger] self@[i]).0, *p.0)
                    &&& forall|i: int| 0 <= i < self@.len() ==> !key_lt(*p.1, (#[trigger] self@[i]).0)
                },
                None => self@.len() == 0,
            },
    {
        let n = self.entries.len();
        if n == 0 {
            None
        } else {
            proof {
                lemma_cmp_properties::<K>();
                assert forall|i: int| 0 <= i < self@.len() implies !key_lt(
                    (#[trigger] self@[i]).0,
                    self@[0].0,
                ) by {
                    if i > 0 {
                        assert(key_lt(self.entries@[0].0, self.entries@[i].0));
                    }
                }
                assert forall|i: int| 0 <= i < self@.len() implies !key_lt(
                    self@[self@.len() - 1].0,
                    (#[trigger] self@[i]).0,
                ) by {
                    if i < self@.len() - 1 {
                        assert(key_lt(self.entries@[i].0, self.entries@[n - 1].0));
                    }
                }
            }
            Some((&self.entries[0].0, &self.entries[n - 1].0))
        }
    }

    /// Number of distinct keys; also the number of groups in the
    /// ordered view.
    pub fn keys_len(&self) -> (r: usize)
        requires
            self.wf(),
        ensures
            r == self.spec_keys_len(),
            r == self@.len(),
    {
        self.entries.len()
    }

    /// Total number of values stored, over all keys: at least one per
    /// present key, and zero exactly when the index is empty.
    pub fn total_values_len(&self) -> (r: usize)
        requires
            self.wf(),
        ensures
            r == self.spec_total_len(),
            r >= self.spec_keys_len(),
            (r == 0) <==> (self.spec_keys_len() == 0),
    {
        proof {
            lemma_groups_total_at_least_count(self.entries@);
        }
        let n = self.entries.len();
        let mut acc: usize = 0;
        let mut i: usize = 0;
        while i < n
            invariant
                self.wf(),
                n == self.entries@.len(),
                i <= n,
                acc == total_len(self.entries@.subrange(0, i as int)),
            decreases n - i,
        {
            proof {
                assert(self.entries@.subrange(0, i + 1).drop_last() =~= self.entries@.subrange(
                    0,
                    i as int,
                ));
                lemma_total_len_prefix(self.entries@, i + 1);
            }
            acc = acc + self.entries[i].1.len();
            i = i + 1;
        }
        proof {
            assert(self.entries@.subrange(0, n as int) =~= self.entries@);
        }
        acc
    }

    /// True iff the index holds no key at all; equivalently, iff the
    /// ordered view has no group, iff the multimap is the empty map.
    pub fn is_empty(&self) -> (r: bool)
        requires
            self.wf(),
        ensures
            r == (self.spec_keys_len() == 0),
            r == (self@.len() == 0),
            r == (self.as_multimap() == Map::<K, Set<V>>::empty()),
    {
        let r = self.entries.len() == 0;
        proof {
            if r {
                assert(self.as_multimap() =~= Map::<K, Set<V>>::empty());
            } else {
                assert(self@[0].0 == self.entries@[0].0);
                assert(self.has_key(self.entries@[0].0));
                assert(self.as_multimap().dom().contains(self.entries@[0].0));
            }
        }
        r
    }

    /// Drop every entry.
    pub fn clear(&mut self)
        requires
            old(self).wf(),
        ensures
            final(self).wf(),
            final(self)@ == Seq::<(K, Seq<V>)>::empty(),
            final(self).as_multimap() == Map::<K, Set<V>>::empty(),
            final(self).spec_keys_len() == 0,
            final(self).spec_total_len() == 0,
    {
        self.entries.clear();
        proof {
            assert(final(self)@ =~= Seq::<(K, Seq<V>)>::empty());
            assert(final(self).as_multimap() =~= Map::<K, Set<V>>::empty());
        }
    }

    /// References to all keys, in ascending order, each exactly once:
    /// position by position the keys of the ordered view, whose length
    /// the result matches.
    pub fn keys(&self) -> (r: Vec<&K>)
        requires
            self.wf(),
        ensures
            r@.len() == self.spec_keys_len(),
            r@.len() == self@.len(),
            forall|j: int| 0 <= j < r@.len() ==> *#[trigger] r@[j] == self@[j].0,
    {
        let n = self.entries.len();
        let mut r: Vec<&K> = Vec::new();
        let mut i: usize = 0;
        while i < n
            invariant
                self.wf(),
                n == self.entries@.len(),
                i <= n,
                r@.len() == i,
                forall|t: int| 0 <= t < i ==> *#[trigger] r@[t] == self@[t].0,
            decreases n - i,
        {
            let e = &self.entries[i];
            r.push(&e.0);
            i = i + 1;
        }
        r
    }

    /// All (key, values) groups in ascending key order, the values of
    /// each key exactly once: position by position the ordered view,
    /// whose length the result matches.
    pub fn iter(&self) -> (r: Vec<(&K, Vec<V>)>)
        requires
            self.wf(),
        ensures
            r@.len() == self.spec_keys_len(),
            r@.len() == self@.len(),
            forall|j: int|
                0 <= j < r@.len() ==> *#[trigger] r@[j].0 == self@[j].0 && r@[j].1@ == self@[j].1,
    {
        let n = self.entries.len();
        let mut r: Vec<(&K, Vec<V>)> = Vec::new();
        let mut i: usize = 0;
        while i < n
            invariant
                self.wf(),
                n == self.entries@.len(),
                i <= n,
                r@.len() == i,
                forall|t: int|
                    0 <= t < i ==> *#[trigger] r@[t].0 == self@[t].0 && r@[t].1@ == self@[t].1,
            decreases n - i,
        {
            let e = &self.entries[i];
            let copy = copied(&e.1);
            r.push((&e.0, copy));
            i = i + 1;
        }
        r
    }
}

/// A copy of a vector of plain values.
fn copied<V: Copy>(vs: &Vec<V>) -> (r: Vec<V>)
    ensures
        r@ == vs@,
{
    let n = vs.len();
    let mut r: Vec<V> = Vec::new();
    let mut j: usize = 0;
    while j < n
        invariant
            n == vs@.len(),
            j <= n,
            r@ == vs@.subrange(0, j as int),
        decreases n - j,
    {
        r.push(vs[j]);
        proof {
            assert(r@ =~= vs@.subrange(0, j + 1));
        }
        j = j + 1;
    }
    proof {
        assert(r@ =~= vs@);
    }
    r
}

/// Inserting an element into an association list adds its group's size.
proof fn lemma_total_len_insert<K, V>(s: Seq<(K, Vec<V>)>, i: int, p: (K, Vec<V>))
    requires
        0 <= i <= s.len(),
    ensures
        total_len(s.insert(i, p)) == total_len(s) + p.1@.len(),
    decreases s.len(),
{
    let t = s.insert(i, p);
    if i == s.len() {
        assert(t =~= s.push(p));
        lemma_total_len_push(s, p);
    } else {
        assert(t.drop_last() =~= s.drop_last().insert(i, p));
        assert(t.last() == s.last());
        lemma_total_len_insert(s.drop_last(), i, p);
    }
}

/// An ordered index over vertex ids.
pub type VertexRangeIndex<K> = RangeIndex<K, crate::id::VertexId>;

/// An ordered index over edge ids.
pub type EdgeRangeIndex<K> = RangeIndex<K, crate::id::EdgeId>;

} // verus!
