//! The composite vertex query facade: one string-keyed exact-match
//! index, one integer-keyed exact-match index and one integer-keyed
//! range index, all over vertex ids.
//!
//! Integer insertion populates both integer indices, so the same data
//! can be queried exactly or by interval; a tagged scalar dispatcher
//! routes typed values to the right index, normalising every integer
//! width into the 64-bit signed key space; removal of a vertex purges it
//! from all three indices at once, keeping the no-empty-key invariant in
//! each.

use vstd::prelude::*;

use super::hash::{multimap_contains, multimap_insert, HashIndex};
use super::metadata::IndexValue;
use super::range::{in_bounds, lemma_range_values_membership, range_values, KeyBound, RangeIndex};
use crate::id::vertex_id::lemma_vertex_id_obeys_concrete_eq;
use crate::id::VertexId;

verus! {

broadcast use lemma_vertex_id_obeys_concrete_eq;

/// The multimap after dropping the value `v` from every key's set; keys
/// whose sets become empty disappear.
pub open spec fn multimap_purge<K, V>(m: Map<K, Set<V>>, v: V) -> Map<K, Set<V>> {
    Map::new(
        |k: K| m.dom().contains(k) && m[k].remove(v) != Set::<V>::empty(),
        |k: K| m[k].remove(v),
    )
}

/// Cross-index removal: after a value has been purged, no key holds it
/// any more.
pub proof fn lemma_purge_removes_value<K, V>(m: Map<K, Set<V>>, v: V)
    ensures
        forall|k: K| !multimap_contains(multimap_purge(m, v), k, v),
{
}

/// The 64-bit signed key a tagged scalar is normalised to, when it is an
/// integer the dispatcher supports; strings, booleans and 128-bit widths
/// have none.
pub open spec fn int_key_of(value: IndexValue) -> Option<i64> {
    match value {
        IndexValue::I8(v) => Some(v as i64),
        IndexValue::I16(v) => Some(v as i64),
        IndexValue::I32(v) => Some(v as i64),
        IndexValue::I64(v) => Some(v),
        IndexValue::U8(v) => Some(v as i64),
        IndexValue::U16(v) => Some(v as i64),
        IndexValue::U32(v) => Some(v as i64),
        IndexValue::U64(v) => Some(v as i64),
        _ => None,
    }
}

/// The 64-bit signed key interval a pair of tagged scalars is
/// normalised to; only a pair of the same integer variant forms one.
pub open spec fn int_range_of(lo: IndexValue, hi: IndexValue) -> Option<(i64, i64)> {
    match (lo, hi) {
        (IndexValue::I8(a), IndexValue::I8(b)) => Some((a as i64, b as i64)),
        (IndexValue::I16(a), IndexValue::I16(b)) => Some((a as i64, b as i64)),
        (IndexValue::I32(a), IndexValue::I32(b)) => Some((a as i64, b as i64)),
        (IndexValue::I64(a), IndexValue::I64(b)) => Some((a, b)),
        (IndexValue::U8(a), IndexValue::U8(b)) => Some((a as i64, b as i64)),
        (IndexValue::U16(a), IndexValue::U16(b)) => Some((a as i64, b as i64)),
        (IndexValue::U32(a), IndexValue::U32(b)) => Some((a as i64, b as i64)),
        (IndexValue::U64(a), IndexValue::U64(b)) => Some((a as i64, b as i64)),
        _ => None,
    }
}

/// True iff some group of the string index carries the key `k`.
spec fn s_has_key(s: Seq<(String, Vec<VertexId>)>, k: Seq<char>) -> bool {
    exists|i: int| 0 <= i < s.len() && (#[trigger] s[i].0)@ == k
}

/// The position of the group carrying `k`.
spec fn s_key_idx(s: Seq<(String, Vec<VertexId>)>, k: Seq<char>) -> int {
    choose|i: int| 0 <= i < s.len() && (#[trigger] s[i].0)@ == k
}

/// Well-formedness of the string index: keys pairwise distinct, no
/// empty groups, no duplicate ids within a group.
spec fn s_wf(s: Seq<(String, Vec<VertexId>)>) -> bool {
    &&& forall|i: int, j: int|
        0 <= i < j < s.len() ==> (#[trigger] s[i].0)@ != (#[trigger] s[j].0)@
    &&& forall|i: int| 0 <= i < s.len() ==> (#[trigger] s[i]).1@.len() > 0
    &&& forall|i: int| 0 <= i < s.len() ==> (#[trigger] s[i]).1@.no_duplicates()
}

/// The string index as a multimap from character sequences to id sets.
spec fn s_view(s: Seq<(String, Vec<VertexId>)>) -> Map<Seq<char>, Set<VertexId>> {
    Map::new(|k: Seq<char>| s_has_key(s, k), |k: Seq<char>| s[s_key_idx(s, k)].1@.to_set())
}

/// One key's situation after a purge, relative to the map before it.
spec fn purged_at<K, V>(cur: Map<K, Set<V>>, orig: Map<K, Set<V>>, k: K, v: V) -> bool {
    if orig.dom().contains(k) && orig[k].remove(v) != Set::<V>::empty() {
        cur.dom().contains(k) && cur[k] == orig[k].remove(v)
    } else {
        !cur.dom().contains(k)
    }
}

/// One key untouched, relative to the map before the purge.
spec fn same_at<K, V>(cur: Map<K, Set<V>>, orig: Map<K, Set<V>>, k: K) -> bool {
    &&& cur.dom().contains(k) == orig.dom().contains(k)
    &&& orig.dom().contains(k) ==> cur[k] == orig[k]
}

/// A copy of a vector of ids.
fn copied_ids(vs: &Vec<VertexId>) -> (r: Vec<VertexId>)
    ensures
        r@ == vs@,
{
    let n = vs.len();
    let mut r: Vec<VertexId> = Vec::new();
    let mut j: usize = 0;
    while j < n
        invariant
            n == vs@.len(),
            j <= n,
            r@ == vs@.subrange(0, j as int),
        decreases n - j,
    {
        r.push(vs[j]);
        proof {
            assert(r@ =~= vs@.subrange(0, j + 1));
        }
        j = j + 1;
    }
    proof {
        assert(r@ =~= vs@);
    }
    r
}

/// The position of `v` inside `vs`, if any.
fn find_id(vs: &Vec<VertexId>, v: &VertexId) -> (r: Option<usize>)
    ensures
        match r {
            Some(p) => 0 <= p < vs@.len() && vs@[p as int] == *v,
            None => forall|j: int| 0 <= j < vs@.len() ==> (#[trigger] vs@[j]) != *v,
        },
{
    let n = vs.len();
    let mut j: usize = 0;
    while j < n
        invariant
            n == vs@.len(),
            j <= n,
            forall|t: int| 0 <= t < j ==> (#[trigger] vs@[t]) != *v,
        decreases n - j,
    {
        if vs[j] == *v {
            return Some(j);
        }
        j = j + 1;
    }
    None
}

/// The composite vertex query facade. Its state is three multimaps: the
/// string view, the integer view and the integer range view; the two
/// integer views always hold the same data, the range one additionally
/// in ascending key order.
#[derive(Debug)]
pub struct SimpleVertexQuery {
    string_index: Vec<(String, Vec<VertexId>)>,
    int_index: HashIndex<i64, VertexId>,
    int_range_index: RangeIndex<i64, VertexId>,
}

impl SimpleVertexQuery {
    /// Internal well-formedness, established by `new` and preserved by
    /// every operation.
    pub closed spec fn wf(&self) -> bool {
        &&& s_wf(self.string_index@)
        &&& self.int_index.wf()
        &&& self.int_range_index.wf()
        &&& self.int_index@ == self.int_range_index.as_multimap()
        &&& self.int_index.spec_total_len() == self.int_range_index.spec_total_len()
    }

    /// The string-keyed multimap.
    pub closed spec fn string_view(&self) -> Map<Seq<char>, Set<VertexId>> {
        s_view(self.string_index@)
    }

    /// The integer-keyed multimap.
    pub closed spec fn int_view(&self) -> Map<i64, Set<VertexId>> {
        self.int_index@
    }

    /// The integer-keyed multimap as held by the range index.
    pub closed spec fn int_range_view(&self) -> Map<i64, Set<VertexId>> {
        self.int_range_index.as_multimap()
    }

    /// The ordered groups of the integer range index.
    pub closed spec fn int_range_entries(&self) -> Seq<(i64, Seq<VertexId>)> {
        self.int_range_index@
    }

    /// Total number of (key, id) pairs in the integer indices.
    pub closed spec fn spec_int_total(&self) -> nat {
        self.int_index.spec_total_len()
    }

    /// The two integer indices always hold the same multimap.
    pub proof fn lemma_int_views_agree(&self)
        requires
            self.wf(),
        ensures
            self.int_view() == self.int_range_view(),
    {
    }

    /// An id appears in a range query's result exactly when some key in
    /// the interval holds it in the integer multimap. This ties the
    /// interval queries, whose contracts read the ordered entries, back
    /// to the multimap that `insert_int` and `remove_vertex` constrain.
    pub proof fn lemma_range_membership(&self, lo: KeyBound<i64>, hi: KeyBound<i64>, v: VertexId)
        requires
            self.wf(),
        ensures
            range_values(self.int_range_entries(), lo, hi).contains(v) <==> exists|k: i64|
                #[trigger] in_bounds(lo, hi, k) && multimap_contains(self.int_view(), k, v),
    {
        lemma_range_values_membership(self.int_range_entries(), lo, hi, v);
        if range_values(self.int_range_entries(), lo, hi).contains(v) {
            let i = choose|i: int|
                0 <= i < self.int_range_entries().len() && in_bounds(
                    lo,
                    hi,
                    #[trigger] self.int_range_entries()[i].0,
                ) && self.int_range_entries()[i].1.contains(v);
            let k = self.int_range_entries()[i].0;
            self.int_range_index.lemma_multimap_membership(k, v);
            assert(in_bounds(lo, hi, k) && multimap_contains(self.int_view(), k, v));
        }
        if exists|k: i64| #[trigger] in_bounds(lo, hi, k) && multimap_contains(
            self.int_view(),
            k,
            v,
        ) {
            let k = choose|k: i64|
                #[trigger] in_bounds(lo, hi, k) && multimap_contains(self.int_view(), k, v);
            self.int_range_index.lemma_multimap_membership(k, v);
            let i = choose|i: int|
                0 <= i < self.int_range_entries().len() && (#[trigger] self.int_range_entries()[
                    i
                ]).0 == k && self.int_range_entries()[i].1.contains(v);
            assert(in_bounds(lo, hi, self.int_range_entries()[i].0)
                && self.int_range_entries()[i].1.contains(v));
        }
    }

    /// Total number of (key, id) pairs held by the integer indices; the
    /// bound `insert_int` asks its callers to keep below `usize::MAX`.
    pub fn int_total(&self) -> (r: usize)
        requires
            self.wf(),
        ensures
            r == self.spec_int_total(),
    {
        self.int_index.total_values_len()
    }

    /// An empty facade.
    pub fn new() -> (r: Self)
        ensures
            r.wf(),
            r.string_view() == Map::<Seq<char>, Set<VertexId>>::empty(),
            r.int_view() == Map::<i64, Set<VertexId>>::empty(),
            r.int_range_view() == Map::<i64, Set<VertexId>>::empty(),
            r.int_range_entries() == Seq::<(i64, Seq<VertexId>)>::empty(),
            r.spec_int_total() == 0,
    {
        let r = SimpleVertexQuery {
            string_index: Vec::new(),
            int_index: HashIndex::new(),
            int_range_index: RangeIndex::new(),
        };
        proof {
            assert(r.string_view() =~= Map::<Seq<char>, Set<VertexId>>::empty());
        }
        r
    }

    /// The position of the string-index group for `key`, if any.
    fn find_skey(&self, key: &String) -> (r: Option<usize>)
        ensures
            match r {
                Some(i) => 0 <= i < self.string_index@.len() && self.string_index@[i as int].0@
                    == key@,
                None => forall|i: int|
                    0 <= i < self.string_index@.len() ==> (#[trigger] self.string_index@[i].0)@
                        != key@,
            },
    {
        let n = self.string_index.len();
        let mut i: usize = 0;
        while i < n
            invariant
                n == self.string_index@.len(),
                i <= n,
                forall|j: int|
                    0 <= j < i ==> (#[trigger] self.string_index@[j].0)@ != key@,
            decreases n - i,
        {
            if self.string_index[i].0 == *key {
                return Some(i);
            }
            i = i + 1;
        }
        None
    }

    /// Record that `vertex_id` carries the string property `value`:
    /// inserts the pair into the string index, de-duplicated. The
    /// integer indices are untouched.
    pub fn insert_string(&mut self, value: &str, vertex_id: VertexId)
        requires
            old(self).wf(),
        ensures
            final(self).wf(),
            final(self).string_view() == multimap_insert(
                old(self).string_view(),
                value@,
                vertex_id,
            ),
            final(self).int_view() == old(self).int_view(),
            final(self).int_range_view() == old(self).int_range_view(),
            final(self).int_range_entries() == old(self).int_range_entries(),
            final(self).spec_int_total() == old(self).spec_int_total(),
    {
        let owned = value.to_owned();
        match self.find_skey(&owned) {
            Some(i) => {
                proof {
                    assert(s_has_key(self.string_index@, value@));
                    assert(s_key_idx(self.string_index@, value@) == i) by {
                        let j = s_key_idx(self.string_index@, value@);
                        if j != i {
                            assert(self.string_index@[i as int].0@ == value@);
                        }
                    }
                }
                match find_id(&self.string_index[i].1, &vertex_id) {
                    Some(_) => {
                        proof {
                            assert(old(self).string_view()[value@].contains(vertex_id));
                            assert(old(self).string_view()[value@].insert(vertex_id) =~= old(self).string_view()[value@]);
                            assert(multimap_insert(
                                old(self).string_view(),
                                value@,
                                vertex_id,
                            ) =~= old(self).string_view());
                        }
                    },
                    None => {
                        let ghost s0 = self.string_index@;
                        self.string_index[i].1.push(vertex_id);
                        proof {
                            let s1 = self.string_index@;
                            assert(s1 =~= s0.update(i as int, (s0[i as int].0, s1[i as int].1)));
                            assert(s1[i as int].1@ =~= s0[i as int].1@.push(vertex_id));
                            super::hash::lemma_push_to_set(s0[i as int].1@, vertex_id);
                            assert forall|k2: Seq<char>| s_has_key(s1, k2) <==> s_has_key(
                                s0,
                                k2,
                            ) by {
                                if s_has_key(s1, k2) {
                                    let t = choose|t: int|
                                        0 <= t < s1.len() && (#[trigger] s1[t].0)@ == k2;
                                    assert(s0[t].0@ == k2);
                                }
                                if s_has_key(s0, k2) {
                                    let t = choose|t: int|
                                        0 <= t < s0.len() && (#[trigger] s0[t].0)@ == k2;
                                    assert(s1[t].0@ == k2);
                                }
                            }
                            assert forall|k2: Seq<char>| s_has_key(s1, k2) implies s_view(s1)[k2]
                                == multimap_insert(s_view(s0), value@, vertex_id)[k2] by {
                                let t1 = s_key_idx(s1, k2);
                                let t0 = s_key_idx(s0, k2);
                                assert(s1[t1].0@ == k2 && s0[t0].0@ == k2);
                                if t1 != t0 {
                                    assert(s0[t1].0@ == s1[t1].0@);
                                }
                            }
                            assert(s_view(s1) =~= multimap_insert(s_view(s0), value@, vertex_id));
                        }
                    },
                }
            },
            None => {
                let ghost s0 = self.string_index@;
                let mut vs: Vec<VertexId> = Vec::new();
                vs.push(vertex_id);
                self.string_index.push((owned, vs));
                proof {
                    let s1 = self.string_index@;
                    assert(!s_has_key(s0, value@));
                    assert(s1[s0.len() as int].0@ == value@);
                    assert(s_has_key(s1, value@));
                    assert forall|k2: Seq<char>| s_has_key(s1, k2) <==> (s_has_key(s0, k2) || k2
                        == value@) by {
                        if s_has_key(s1, k2) && k2 != value@ {
                            let t = choose|t: int| 0 <= t < s1.len() && (#[trigger] s1[t].0)@ == k2;
                            assert(t < s0.len());
                            assert(s0[t].0@ == k2);
                        }
                        if s_has_key(s0, k2) {
                            let t = choose|t: int| 0 <= t < s0.len() && (#[trigger] s0[t].0)@ == k2;
                            assert(s1[t].0@ == k2);
                        }
                    }
                    assert forall|k2: Seq<char>| s_has_key(s1, k2) implies s_view(s1)[k2]
                        == multimap_insert(s_view(s0), value@, vertex_id)[k2] by {
                        let t1 = s_key_idx(s1, k2);
                        assert(s1[t1].0@ == k2);
                        if k2 == value@ {
                            assert(t1 == s0.len()) by {
                                if t1 < s0.len() {
                                    assert(s0[t1].0@ == value@);
                                }
                            }
                            assert(s1[t1].1@ =~= Seq::<VertexId>::empty().push(vertex_id));
                            super::hash::lemma_push_to_set(Seq::<VertexId>::empty(), vertex_id);
                            assert(Seq::<VertexId>::empty().to_set() =~= Set::<VertexId>::empty());
                        } else {
                            let t0 = s_key_idx(s0, k2);
                            assert(s0[t0].0@ == k2);
                            assert(t1 < s0.len() || s1[t1].0@ == value@);
                            if t1 != t0 {
                                assert(s0[t1].0@ == s1[t1].0@);
                            }
                        }
                    }
                    assert(s_view(s1) =~= multimap_insert(s_view(s0), value@, vertex_id));
                }
            },
        }
    }

    /// Record that `vertex_id` carries the integer property `value`:
    /// inserts the pair into both the exact-match and the range integer
    /// index, so either kind of lookup finds it. The string index is
    /// untouched.
    pub fn insert_int(&mut self, value: i64, vertex_id: VertexId)
        requires
            old(self).wf(),
            old(self).spec_int_total() < usize::MAX,
        ensures
            final(self).wf(),
            final(self).int_view() == multimap_insert(old(self).int_view(), value, vertex_id),
            final(self).int_range_view() == multimap_insert(
                old(self).int_view(),
                value,
                vertex_id,
            ),
            final(self).string_view() == old(self).string_view(),
            final(self).spec_int_total() == old(self).spec_int_total() + (if multimap_contains(
                old(self).int_view(),
                value,
                vertex_id,
            ) {
                0int
            } else {
                1int
            }),
            forall|lo: KeyBound<i64>, hi: KeyBound<i64>|
                in_bounds(lo, hi, value) ==> #[trigger] range_values(
                    final(self).int_range_entries(),
                    lo,
                    hi,
                ).contains(vertex_id),
    {
        let _ = self.int_index.insert(value, vertex_id);
        let _ = self.int_range_index.insert(value, vertex_id);
        proof {
            assert forall|lo: KeyBound<i64>, hi: KeyBound<i64>|
                in_bounds(lo, hi, value) implies #[trigger] range_values(
                self.int_range_entries(),
                lo,
                hi,
            ).contains(vertex_id) by {
                self.lemma_range_membership(lo, hi, vertex_id);
                assert(multimap_contains(self.int_view(), value, vertex_id));
            }
        }
    }

    /// The ids recorded under the string property `value`, each exactly
    /// once; an unknown value yields an empty list.
    pub fn query_string(&self, value: &str) -> (r: Vec<VertexId>)
        requires
            self.wf(),
        ensures
            self.string_view().dom().contains(value@) ==> r@.to_set() == self.string_view()[value@]
                && r@.no_duplicates(),
            !self.string_view().dom().contains(value@) ==> r@.len() == 0,
    {
        let owned = value.to_owned();
        match self.find_skey(&owned) {
            Some(i) => {
                proof {
                    assert(s_has_key(self.string_index@, value@));
                    assert(s_key_idx(self.string_index@, value@) == i) by {
                        let j = s_key_idx(self.string_index@, value@);
                        if j != i {
                            assert(self.string_index@[i as int].0@ == value@);
                        }
                    }
                }
                copied_ids(&self.string_index[i].1)
            },
            None => {
                proof {
                    assert(!s_has_key(self.string_index@, value@));
                }
                Vec::new()
            },
        }
    }

    /// The ids recorded under the integer property `value`, each exactly
    /// once; an unknown value yields an empty list.
    pub fn query_int(&self, value: i64) -> (r: Vec<VertexId>)
        requires
            self.wf(),
        ensures
            self.int_view().dom().contains(value) ==> r@.to_set() == self.int_view()[value]
                && r@.no_duplicates(),
            !self.int_view().dom().contains(value) ==> r@.len() == 0,
    {
        self.int_index.get(&value)
    }

    /// The ids recorded under integer properties in `range` (inclusive
    /// start, exclusive end), in ascending key order.
    pub fn range_int(&self, range: core::ops::Range<i64>) -> (r: Vec<VertexId>)
        requires
            self.wf(),
        ensures
            r@ == range_values(
                self.int_range_entries(),
                KeyBound::Included(range.start),
                KeyBound::Excluded(range.end),
            ),
    {
        let lo = KeyBound::Included(range.start);
        let hi = KeyBound::Excluded(range.end);
        self.int_range_index.range(&lo, &hi)
    }

    /// Dispatch a tagged scalar to the right index: strings go to the
    /// string index, integers of any width are normalised into the
    /// 64-bit signed key space, and unsupported variants yield an empty
    /// list rather than an error.
    pub fn query_value(&self, value: &IndexValue) -> (r: Vec<VertexId>)
        requires
            self.wf(),
        ensures
            match *value {
                IndexValue::Str(_) => {
                    let k = value->Str_0@;
                    &&& self.string_view().dom().contains(k) ==> r@.to_set() == self.string_view()[k] && r@.no_duplicates()
                    &&& !self.string_view().dom().contains(k) ==> r@.len() == 0
                },
                _ => match int_key_of(*value) {
                    Some(k) => {
                        &&& self.int_view().dom().contains(k) ==> r@.to_set() == self.int_view()[k]
                            && r@.no_duplicates()
                        &&& !self.int_view().dom().contains(k) ==> r@.len() == 0
                    },
                    None => r@.len() == 0,
                },
            },
    {
        match value {
            IndexValue::Str(s) => self.query_string(s.as_str()),
            IndexValue::I8(v) => self.query_int(*v as i64),
            IndexValue::I16(v) => self.query_int(*v as i64),
            IndexValue::I32(v) => self.query_int(*v as i64),
            IndexValue::I64(v) => self.query_int(*v),
            IndexValue::U8(v) => self.query_int(*v as i64),
            IndexValue::U16(v) => self.query_int(*v as i64),
            IndexValue::U32(v) => self.query_int(*v as i64),
            IndexValue::U64(v) => self.query_int(#[verifier::truncate] (*v as i64)),
            _ => Vec::new(),
        }
    }

    /// Dispatch a tagged scalar interval (inclusive start, exclusive
    /// end) to the integer range index. Only a pair of the same integer
    /// variant forms an interval; anything else yields an empty list.
    pub fn range_value(&self, range: &core::ops::Range<IndexValue>) -> (r: Vec<VertexId>)
        requires
            self.wf(),
        ensures
            match int_range_of(range.start, range.end) {
                Some(b) => r@ == range_values(
                    self.int_range_entries(),
                    KeyBound::Included(b.0),
                    KeyBound::Excluded(b.1),
                ),
                None => r@.len() == 0,
            },
    {
        match (&range.start, &range.end) {
            (IndexValue::I8(a), IndexValue::I8(b)) => self.range_int(*a as i64..*b as i64),
            (IndexValue::I16(a), IndexValue::I16(b)) => self.range_int(*a as i64..*b as i64),
            (IndexValue::I32(a), IndexValue::I32(b)) => self.range_int(*a as i64..*b as i64),
            (IndexValue::I64(a), IndexValue::I64(b)) => self.range_int(*a..*b),
            (IndexValue::U8(a), IndexValue::U8(b)) => self.range_int(*a as i64..*b as i64),
            (IndexValue::U16(a), IndexValue::U16(b)) => self.range_int(*a as i64..*b as i64),
            (IndexValue::U32(a), IndexValue::U32(b)) => self.range_int(*a as i64..*b as i64),
            (IndexValue::U64(a), IndexValue::U64(b)) => self.range_int(
                #[verifier::truncate] (*a as i64)..#[verifier::truncate] (*b as i64),
            ),
            _ => Vec::new(),
        }
    }

    /// Purge `vertex_id` from all three indices at once, whether or not
    /// it is present in each; keys left with no ids disappear, so no
    /// index ever keeps an empty entry for a removed vertex.
    pub fn remove_vertex(&mut self, vertex_id: VertexId)
        requires
            old(self).wf(),
        ensures
            final(self).wf(),
            final(self).string_view() == multimap_purge(old(self).string_view(), vertex_id),
            final(self).int_view() == multimap_purge(old(self).int_view(), vertex_id),
            final(self).int_range_view() == multimap_purge(old(self).int_view(), vertex_id),
            final(self).spec_int_total() <= old(self).spec_int_total(),
            forall|lo: KeyBound<i64>, hi: KeyBound<i64>|
                !#[trigger] range_values(final(self).int_range_entries(), lo, hi).contains(
                    vertex_id,
                ),
    {
        self.purge_string(vertex_id);
        self.purge_ints(vertex_id);
        proof {
            lemma_purge_removes_value(old(self).int_view(), vertex_id);
            assert forall|lo: KeyBound<i64>, hi: KeyBound<i64>|
                !#[trigger] range_values(self.int_range_entries(), lo, hi).contains(
                vertex_id,
            ) by {
                self.lemma_range_membership(lo, hi, vertex_id);
            }
        }
    }

    /// Purge `vertex_id` from the string index.
    fn purge_string(&mut self, vertex_id: VertexId)
        requires
            old(self).wf(),
        ensures
            final(self).wf(),
            final(self).string_view() == multimap_purge(old(self).string_view(), vertex_id),
            final(self).int_view() == old(self).int_view(),
            final(self).int_range_view() == old(self).int_range_view(),
            final(self).int_range_entries() == old(self).int_range_entries(),
            final(self).spec_int_total() == old(self).spec_int_total(),
    {
        let ghost s0 = self.string_index@;
        let n = self.string_index.len();
        let mut out: Vec<(String, Vec<VertexId>)> = Vec::new();
        let mut i: usize = 0;
        while i < n
            invariant
                s_wf(s0),
                s0 == self.string_index@,
                n == s0.len(),
                i <= n,
                s_wf(out@),
                forall|t: int|
                    0 <= t < out@.len() ==> exists|u: int|
                        0 <= u < i && (#[trigger] out@[t].0)@ == s0[u].0@,
                forall|k2: Seq<char>|
                    s_has_key(out@, k2) ==> s_has_key(s0, k2) && #[trigger] s_view(out@)[k2]
                        == s_view(s0)[k2].remove(vertex_id),
                forall|u: int|
                    0 <= u < i && (#[trigger] s0[u]).1@.to_set().remove(vertex_id) != Set::<
                        VertexId,
                    >::empty() ==> s_has_key(out@, s0[u].0@),
            decreases n - i,
        {
            let ghost out0 = out@;
            let e = &self.string_index[i];
            let key_copy = e.0.clone();
            match find_id(&e.1, &vertex_id) {
                None => {
                    let vs = copied_ids(&e.1);
                    proof {
                        assert(vs@.to_set().remove(vertex_id) =~= vs@.to_set()) by {
                            assert(!vs@.to_set().contains(vertex_id));
                        }
                    }
                    out.push((key_copy, vs));
                },
                Some(p) => {
                    if e.1.len() > 1 {
                        let mut vs = copied_ids(&e.1);
                        let _ = vs.remove(p);
                        proof {
                            super::hash::lemma_remove_to_set(s0[i as int].1@, p as int);
                            assert(vs@.to_set().remove(vertex_id) =~= vs@.to_set()) by {
                                assert(!vs@.to_set().contains(vertex_id)) by {
                                    if vs@.to_set().contains(vertex_id) {
                                        assert(s0[i as int].1@.to_set().remove(vertex_id).contains(vertex_id));
                                    }
                                }
                            }
                            assert(vs@.to_set() != Set::<VertexId>::empty()) by {
                                let vs0 = s0[i as int].1@;
                                let other = if p == 0 {
                                    vs0[1]
                                } else {
                                    vs0[0]
                                };
                                assert(vs0.to_set().contains(other));
                                assert(other != vertex_id);
                                assert(vs@.to_set().contains(other));
                            }
                        }
                        out.push((key_copy, vs));
                    } else {
                        proof {
                            assert(s0[i as int].1@[p as int] == vertex_id);
                            assert(s0[i as int].1@ =~= Seq::<VertexId>::empty().push(vertex_id));
                            super::hash::lemma_push_to_set(Seq::<VertexId>::empty(), vertex_id);
                            assert(Seq::<VertexId>::empty().to_set() =~= Set::<VertexId>::empty());
                            assert(s0[i as int].1@.to_set().remove(vertex_id) =~= Set::<
                                VertexId,
                            >::empty());
                        }
                    }
                },
            }
            proof {
                let s1 = out@;
                assert forall|k2: Seq<char>| s_has_key(s1, k2) implies s_has_key(s0, k2)
                    && #[trigger] s_view(s1)[k2] == s_view(s0)[k2].remove(vertex_id) by {
                    let t = choose|t: int| 0 <= t < s1.len() && (#[trigger] s1[t].0)@ == k2;
                    if t < out0.len() {
                        assert(out0[t].0@ == k2);
                        assert(s_has_key(out0, k2));
                        let t0 = s_key_idx(out0, k2);
                        let t1 = s_key_idx(s1, k2);
                        assert(out0[t0].0@ == k2 && s1[t1].0@ == k2);
                        if t1 < out0.len() {
                            assert(out0[t1].0@ == k2);
                            if t1 != t0 {
                                assert(out0[t0].0@ == out0[t1].0@);
                            }
                            assert(s_view(s1)[k2] == s_view(out0)[k2]);
                        } else {
                            assert(s1[t1].0@ == s0[i as int].0@);
                            let u = choose|u: int|
                                0 <= u < i && (#[trigger] out0[t].0)@ == s0[u].0@;
                            assert(s0[u].0@ == s0[i as int].0@);
                        }
                    } else {
                        assert(s1[t].0@ == s0[i as int].0@);
                        let t1 = s_key_idx(s1, k2);
                        assert(s1[t1].0@ == k2);
                        if t1 < out0.len() {
                            let u = choose|u: int|
                                0 <= u < i && (#[trigger] out0[t1].0)@ == s0[u].0@;
                            assert(s0[u].0@ == s0[i as int].0@);
                        }
                        assert(s_view(s1)[k2] == s1[t1].1@.to_set());
                    }
                }
                assert forall|u: int|
                    0 <= u < i + 1 && (#[trigger] s0[u]).1@.to_set().remove(vertex_id) != Set::<
                        VertexId,
                    >::empty() implies s_has_key(out@, s0[u].0@) by {
                    if u < i {
                        assert(s_has_key(out0, s0[u].0@));
                        let t = choose|t: int|
                            0 <= t < out0.len() && (#[trigger] out0[t].0)@ == s0[u].0@;
                        assert(out@[t].0@ == s0[u].0@);
                    } else {
                        assert(out@[out@.len() - 1].0@ == s0[i as int].0@);
                    }
                }
            }
            i = i + 1;
        }
        proof {
            assert forall|k2: Seq<char>|
                #[trigger] multimap_purge(s_view(s0), vertex_id).dom().contains(k2) implies s_has_key(
                out@,
                k2,
            ) by {
                let t0 = s_key_idx(s0, k2);
                assert(s0[t0].0@ == k2);
                assert(s_view(s0)[k2] == s0[t0].1@.to_set());
            }
            assert forall|k2: Seq<char>| #[trigger] s_has_key(out@, k2) implies multimap_purge(
                s_view(s0),
                vertex_id,
            ).dom().contains(k2) && s_view(out@)[k2] == multimap_purge(
                s_view(s0),
                vertex_id,
            )[k2] by {
                let t = s_key_idx(out@, k2);
                assert(out@[t].0@ == k2);
                assert(s_view(out@)[k2] == out@[t].1@.to_set());
                assert(out@[t].1@.to_set().contains(out@[t].1@[0]));
                assert(s_view(out@)[k2] == s_view(s0)[k2].remove(vertex_id));
            }
            assert(s_view(out@).dom() =~= multimap_purge(s_view(s0), vertex_id).dom());
            assert forall|k2: Seq<char>|
                #[trigger] s_view(out@).dom().contains(k2) implies s_view(out@)[k2]
                == multimap_purge(s_view(s0), vertex_id)[k2] by {
                assert(s_has_key(out@, k2));
                let t = s_key_idx(out@, k2);
                assert(out@[t].0@ == k2);
                assert(s_view(out@)[k2] == out@[t].1@.to_set());
            }
            assert(s_view(out@) =~= multimap_purge(s_view(s0), vertex_id));
        }
        self.string_index = out;
    }

    /// Purge `vertex_id` from both integer indices.
    fn purge_ints(&mut self, vertex_id: VertexId)
        requires
            old(self).wf(),
        ensures
            final(self).wf(),
            final(self).int_view() == multimap_purge(old(self).int_view(), vertex_id),
            final(self).int_range_view() == multimap_purge(old(self).int_view(), vertex_id),
            final(self).string_view() == old(self).string_view(),
            final(self).spec_int_total() <= old(self).spec_int_total(),
    {
        let ghost m0 = self.int_index@;
        proof {
            self.int_index.lemma_no_empty_keys();
            assert forall|k: i64| #[trigger] m0.dom().contains(k) implies m0[k] != Set::<
                VertexId,
            >::empty() by {
                assert(m0[k].len() > 0);
                assert(Set::<VertexId>::empty().len() == 0);
            }
        }
        let key_refs = self.int_index.keys();
        let kn = key_refs.len();
        let mut ks: Vec<i64> = Vec::new();
        let mut j: usize = 0;
        while j < kn
            invariant
                kn == key_refs@.len(),
                j <= kn,
                ks@.len() == j,
                forall|t: int| 0 <= t < j ==> #[trigger] ks@[t] == *key_refs@[t],
            decreases kn - j,
        {
            ks.push(*key_refs[j]);
            j = j + 1;
        }
        proof {
            assert forall|k: i64| #[trigger] m0.dom().contains(k) implies exists|t: int|
                0 <= t < ks@.len() && ks@[t] == k by {
                let t = choose|t: int| 0 <= t < key_refs@.len() && *#[trigger] key_refs@[t] == k;
                assert(ks@[t] == k);
            }
        }
        let mut t: usize = 0;
        while t < kn
            invariant
                kn == ks@.len(),
                t <= kn,
                self.int_index.wf(),
                self.int_range_index.wf(),
                self.int_index@ == self.int_range_index.as_multimap(),
                self.int_index.spec_total_len() == self.int_range_index.spec_total_len(),
                self.int_index.spec_total_len() <= old(self).spec_int_total(),
                forall|k: i64|
                    #[trigger] m0.dom().contains(k) ==> m0[k] != Set::<VertexId>::empty(),
                s_wf(self.string_index@),
                self.string_index == old(self).string_index,
                forall|k: i64|
                    (exists|u: int| 0 <= u < t && #[trigger] ks@[u] == k) ==> purged_at(
                        self.int_index@,
                        m0,
                        k,
                        vertex_id,
                    ),
                forall|k: i64|
                    !(exists|u: int| 0 <= u < t && #[trigger] ks@[u] == k) ==> same_at(
                        self.int_index@,
                        m0,
                        k,
                    ),
            decreases kn - t,
        {
            let ghost mi = self.int_index@;
            let k = ks[t];
            let _ = self.int_index.remove(&k, &vertex_id);
            let _ = self.int_range_index.remove(&k, &vertex_id);
            proof {
                assert forall|k2: i64|
                    (exists|u: int| 0 <= u < t + 1 && #[trigger] ks@[u] == k2) implies purged_at(
                    self.int_index@,
                    m0,
                    k2,
                    vertex_id,
                ) by {
                    if k2 == k {
                        if exists|u: int| 0 <= u < t && #[trigger] ks@[u] == k2 {
                            assert(purged_at(mi, m0, k2, vertex_id));
                            if m0.dom().contains(k2) && m0[k2].remove(vertex_id) != Set::<
                                VertexId,
                            >::empty() {
                                assert(!mi[k2].contains(vertex_id));
                            }
                        } else {
                            assert(same_at(mi, m0, k2));
                            if m0.dom().contains(k2) {
                                if !mi[k2].contains(vertex_id) {
                                    assert(m0[k2].remove(vertex_id) =~= m0[k2]);
                                    assert(m0[k2] != Set::<VertexId>::empty());
                                }
                            }
                        }
                    } else {
                        let u = choose|u: int| 0 <= u < t + 1 && #[trigger] ks@[u] == k2;
                        assert(u < t);
                        assert(purged_at(mi, m0, k2, vertex_id));
                        if m0.dom().contains(k2) && m0[k2].remove(vertex_id) != Set::<
                            VertexId,
                        >::empty() {
                            assert(!mi[k2].contains(vertex_id));
                        }
                    }
                }
                assert forall|k2: i64|
                    !(exists|u: int| 0 <= u < t + 1 && #[trigger] ks@[u] == k2) implies same_at(
                    self.int_index@,
                    m0,
                    k2,
                ) by {
                    assert(!(exists|u: int| 0 <= u < t && #[trigger] ks@[u] == k2));
                    assert(same_at(mi, m0, k2));
                    assert(k2 != k) by {
                        assert(ks@[t as int] == k);
                    }
                }
            }
            t = t + 1;
        }
        proof {
            assert forall|k: i64| #[trigger] m0.dom().contains(k) implies purged_at(
                self.int_index@,
                m0,
                k,
                vertex_id,
            ) by {
                let u = choose|u: int| 0 <= u < ks@.len() && ks@[u] == k;
                assert(ks@[u] == k);
            }
            assert(final(self).int_view() =~= multimap_purge(old(self).int_view(), vertex_id)) by {
                assert forall|k: i64| #[trigger] final(self).int_view().dom().contains(k)
                    <==> multimap_purge(old(self).int_view(), vertex_id).dom().contains(k) by {
                    if m0.dom().contains(k) {
                        assert(purged_at(self.int_index@, m0, k, vertex_id));
                    } else {
                        if !(exists|u: int| 0 <= u < ks@.len() && #[trigger] ks@[u] == k) {
                            assert(same_at(self.int_index@, m0, k));
                        } else {
                            assert(purged_at(self.int_index@, m0, k, vertex_id));
                        }
                    }
                }
                assert forall|k: i64|
                    #[trigger] final(self).int_view().dom().contains(k) implies final(self).int_view()[k] == multimap_purge(old(self).int_view(), vertex_id)[k] by {
                    if m0.dom().contains(k) {
                        assert(purged_at(self.int_index@, m0, k, vertex_id));
                    } else {
                        if !(exists|u: int| 0 <= u < ks@.len() && #[trigger] ks@[u] == k) {
                            assert(same_at(self.int_index@, m0, k));
                        } else {
                            assert(purged_at(self.int_index@, m0, k, vertex_id));
                        }
                    }
                }
            }
        }
    }

    /// Drop everything from all three indices.
    pub fn clear(&mut self)
        requires
            old(self).wf(),
        ensures
            final(self).wf(),
            final(self).string_view() == Map::<Seq<char>, Set<VertexId>>::empty(),
            final(self).int_view() == Map::<i64, Set<VertexId>>::empty(),
            final(self).int_range_view() == Map::<i64, Set<VertexId>>::empty(),
            final(self).int_range_entries() == Seq::<(i64, Seq<VertexId>)>::empty(),
            final(self).spec_int_total() == 0,
    {
        self.string_index = Vec::new();
        self.int_index.clear();
        self.int_range_index.clear();
        proof {
            assert(final(self).string_view() =~= Map::<Seq<char>, Set<VertexId>>::empty());
        }
    }
}

impl Default for SimpleVertexQuery {
    /// An empty facade.
    fn default() -> (r: Self)
        ensures
            r.wf(),
            r.string_view() == Map::<Seq<char>, Set<VertexId>>::empty(),
            r.int_view() == Map::<i64, Set<VertexId>>::empty(),
            r.int_range_view() == Map::<i64, Set<VertexId>>::empty(),
    {
        SimpleVertexQuery::new()
    }
}

} // verus!
