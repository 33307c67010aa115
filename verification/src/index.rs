//! The inverse index: a mapping from 20-byte reference values to sets of
//! 16-byte keys, the only state that outlives a single command.
//!
//! The index is modelled as a `Map<Seq<u8>, Set<Seq<u8>>>` from the bytes of
//! a reference value to the set of byte sequences of the keys filed under
//! it. A key appears at most once per reference value; insertion order is
//! irrelevant to the model.

use vstd::prelude::*;
use crate::bytes::bytes_eq;
use crate::pairs::{Key, RefValue};

verus! {

/// The model of one drawn pair: the key's bytes and the reference value's
/// bytes, in that order.
pub type PairModel = (Seq<u8>, Seq<u8>);

/// A pair whose key is 16 bytes and whose reference value is 20 bytes.
pub open spec fn valid_pair(p: PairModel) -> bool {
    p.0.len() == 16 && p.1.len() == 20
}

/// Every pair of the sequence is well-sized.
pub open spec fn valid_pairs(pairs: Seq<PairModel>) -> bool {
    forall|i: int| 0 <= i < pairs.len() ==> valid_pair(#[trigger] pairs[i])
}

/// The effect of filing one pair: the key joins the set associated with the
/// pair's reference value, a singleton set being created if the value is new.
pub open spec fn apply_pair(m: Map<Seq<u8>, Set<Seq<u8>>>, p: PairModel) -> Map<Seq<u8>, Set<Seq<u8>>> {
    if m.dom().contains(p.1) {
        m.insert(p.1, m[p.1].insert(p.0))
    } else {
        m.insert(p.1, Set::empty().insert(p.0))
    }
}

/// The effect of filing a whole sequence of pairs, first to last.
pub open spec fn accumulate_pairs(m: Map<Seq<u8>, Set<Seq<u8>>>, pairs: Seq<PairModel>) -> Map<Seq<u8>, Set<Seq<u8>>>
    decreases pairs.len(),
{
    if pairs.len() == 0 {
        m
    } else {
        apply_pair(accumulate_pairs(m, pairs.drop_last()), pairs.last())
    }
}

/// The set of byte sequences of the keys in a stored key list.
pub open spec fn key_set(keys: Seq<Key>) -> Set<Seq<u8>> {
    Set::new(|k: Seq<u8>| exists|i: int| 0 <= i < keys.len() && (#[trigger] keys[i])@ == k)
}

/// One stored entry: a reference value and the keys filed under it.
struct Entry {
    value: RefValue,
    keys: Vec<Key>,
}

/// A stored entry holds at least one key and no key twice.
spec fn entry_wf(e: Entry) -> bool {
    &&& e.keys@.len() >= 1
    &&& forall|p: int, q: int|
        0 <= p < q < e.keys@.len() ==> (#[trigger] e.keys@[p])@ != (#[trigger] e.keys@[q])@
}

/// No two stored entries share a reference value, and each is well-formed.
spec fn entries_wf(s: Seq<Entry>) -> bool {
    &&& forall|i: int, j: int|
        0 <= i < j < s.len() ==> (#[trigger] s[i]).value@ != (#[trigger] s[j]).value@
    &&& forall|i: int| 0 <= i < s.len() ==> entry_wf(#[trigger] s[i])
}

/// The mapping the stored entries stand for.
spec fn map_of(s: Seq<Entry>) -> Map<Seq<u8>, Set<Seq<u8>>>
    decreases s.len(),
{
    if s.len() == 0 {
        Map::empty()
    } else {
        map_of(s.drop_last()).insert(s.last().value@, key_set(s.last().keys@))
    }
}

/// The reference values present among the stored entries.
spec fn value_set(s: Seq<Entry>) -> Set<Seq<u8>> {
    Set::new(|v: Seq<u8>| exists|i: int| 0 <= i < s.len() && (#[trigger] s[i]).value@ == v)
}

/// How many keys the stored entries hold in total.
spec fn total_key_count(s: Seq<Entry>) -> int
    decreases s.len(),
{
    if s.len() == 0 {
        0
    } else {
        total_key_count(s.drop_last()) + s.last().keys@.len()
    }
}

/// The inverse index itself. Logically a map from reference-value bytes to
/// key sets; physically a vector of entries plus a running key count.
pub struct InverseIndex {
    entries: Vec<Entry>,
    count: usize,
}

impl View for InverseIndex {
    type V = Map<Seq<u8>, Set<Seq<u8>>>;

    closed spec fn view(&self) -> Map<Seq<u8>, Set<Seq<u8>>> {
        map_of(self.entries@)
    }
}

proof fn lemma_entries_wf_prefix(s: Seq<Entry>)
    requires
        entries_wf(s),
        s.len() > 0,
    ensures
        entries_wf(s.drop_last()),
{
    let q = s.drop_last();
    assert forall|i: int| 0 <= i < q.len() implies entry_wf(#[trigger] q[i]) by {
        assert(q[i] == s[i]);
    }
    assert forall|i: int, j: int| 0 <= i < j < q.len() implies (#[trigger] q[i]).value@ != (#[trigger] q[j]).value@ by {
        assert(q[i] == s[i] && q[j] == s[j]);
    }
}

proof fn lemma_map_of_dom(s: Seq<Entry>)
    ensures
        map_of(s).dom() == value_set(s),
    decreases s.len(),
{
    if s.len() == 0 {
        assert(map_of(s).dom() =~= value_set(s));
    } else {
        let q = s.drop_last();
        lemma_map_of_dom(q);
        assert forall|v: Seq<u8>| map_of(s).dom().contains(v) implies value_set(s).contains(v) by {
            if v == s.last().value@ {
                assert((#[trigger] s[s.len() - 1]).value@ == v);
            } else {
                let i = choose|i: int| 0 <= i < q.len() && (#[trigger] q[i]).value@ == v;
                assert((#[trigger] s[i]).value@ == v);
            }
        }
        assert forall|v: Seq<u8>| value_set(s).contains(v) implies map_of(s).dom().contains(v) by {
            let i = choose|i: int| 0 <= i < s.len() && (#[trigger] s[i]).value@ == v;
            if i < s.len() - 1 {
                assert((#[trigger] q[i]).value@ == v);
                assert(value_set(q).contains(v));
            }
        }
        assert(map_of(s).dom() =~= value_set(s));
    }
}

proof fn lemma_map_of_index(s: Seq<Entry>, i: int)
    requires
        entries_wf(s),
        0 <= i < s.len(),
    ensures
        map_of(s).dom().contains(s[i].value@),
        map_of(s)[s[i].value@] == key_set(s[i].keys@),
    decreases s.len(),
{
    let q = s.drop_last();
    if i == s.len() - 1 {
    } else {
        lemma_entries_wf_prefix(s);
        assert(q[i] == s[i]);
        lemma_map_of_index(q, i);
        assert(s.last().value@ != s[i].value@);
    }
}

proof fn lemma_map_of_update(s: Seq<Entry>, i: int, e2: Entry)
    requires
        entries_wf(s),
        0 <= i < s.len(),
        e2.value@ == s[i].value@,
    ensures
        map_of(s.update(i, e2)) == map_of(s).insert(e2.value@, key_set(e2.keys@)),
    decreases s.len(),
{
    let s2 = s.update(i, e2);
    let q = s.drop_last();
    let v = e2.value@;
    if i == s.len() - 1 {
        assert(s2.drop_last() =~= q);
        assert(s2.last() == e2);
        assert(map_of(s2) == map_of(q).insert(v, key_set(e2.keys@)));
        assert(map_of(s).insert(v, key_set(e2.keys@))
            =~= map_of(q).insert(v, key_set(e2.keys@)));
    } else {
        lemma_entries_wf_prefix(s);
        assert(q[i] == s[i]);
        lemma_map_of_update(q, i, e2);
        assert(s2.drop_last() =~= q.update(i, e2));
        assert(s2.last() == s.last());
        let lv = s.last().value@;
        let lk = key_set(s.last().keys@);
        assert(lv != v);
        assert(map_of(s2) == map_of(q).insert(v, key_set(e2.keys@)).insert(lv, lk));
        assert(map_of(q).insert(v, key_set(e2.keys@)).insert(lv, lk)
            =~= map_of(q).insert(lv, lk).insert(v, key_set(e2.keys@)));
    }
}

proof fn lemma_total_update(s: Seq<Entry>, i: int, e2: Entry)
    requires
        0 <= i < s.len(),
    ensures
        total_key_count(s.update(i, e2))
            == total_key_count(s) - s[i].keys@.len() + e2.keys@.len(),
    decreases s.len(),
{
    let s2 = s.update(i, e2);
    let q = s.drop_last();
    if i == s.len() - 1 {
        assert(s2.drop_last() =~= q);
        assert(s2.last() == e2);
    } else {
        assert(q[i] == s[i]);
        lemma_total_update(q, i, e2);
        assert(s2.drop_last() =~= q.update(i, e2));
        assert(s2.last() == s.last());
    }
}

proof fn lemma_key_set_push(keys: Seq<Key>, k: Key)
    ensures
        key_set(keys.push(k)) == key_set(keys).insert(k@),
{
    let p = keys.push(k);
    assert forall|x: Seq<u8>| key_set(p).contains(x) implies key_set(keys).insert(k@).contains(x) by {
        let i = choose|i: int| 0 <= i < p.len() && (#[trigger] p[i])@ == x;
        if i < keys.len() {
            assert((#[trigger] keys[i])@ == x);
        } else {
            assert(p[i] == k);
        }
    }
    assert forall|x: Seq<u8>| key_set(keys).insert(k@).contains(x) implies key_set(p).contains(x) by {
        if x == k@ {
            assert((#[trigger] p[keys.len() as int])@ == x);
        } else {
            let i = choose|i: int| 0 <= i < keys.len() && (#[trigger] keys[i])@ == x;
            assert((#[trigger] p[i])@ == x);
        }
    }
    assert(key_set(p) =~= key_set(keys).insert(k@));
}

proof fn lemma_map_of_len(s: Seq<Entry>)
    requires
        entries_wf(s),
    ensures
        map_of(s).dom().finite(),
        map_of(s).dom().len() == s.len(),
    decreases s.len(),
{
    if s.len() == 0 {
        assert(map_of(s).dom() =~= Set::<Seq<u8>>::empty());
    } else {
        let q = s.drop_last();
        lemma_entries_wf_prefix(s);
        lemma_map_of_len(q);
        lemma_map_of_dom(q);
        let lv = s.last().value@;
        if value_set(q).contains(lv) {
            let i = choose|i: int| 0 <= i < q.len() && (#[trigger] q[i]).value@ == lv;
            assert(s[i] == q[i]);
            assert(false);
        }
        assert(map_of(s).dom() =~= map_of(q).dom().insert(lv));
        vstd::set::axiom_set_insert_finite(map_of(q).dom(), lv);
        vstd::set::axiom_set_insert_len(map_of(q).dom(), lv);
    }
}

proof fn lemma_total_at_least_len(s: Seq<Entry>)
    requires
        entries_wf(s),
    ensures
        total_key_count(s) >= s.len(),
    decreases s.len(),
{
    if s.len() > 0 {
        lemma_entries_wf_prefix(s);
        lemma_total_at_least_len(s.drop_last());
        assert(entry_wf(s[s.len() - 1]));
    }
}

/// A well-formed index holds no keys exactly when its mapping is empty.
pub proof fn lemma_no_keys_means_empty(idx: InverseIndex)
    requires
        idx.wf(),
    ensures
        (idx.total_keys_spec() == 0) <==> (idx@ == Map::<Seq<u8>, Set<Seq<u8>>>::empty()),
{
    lemma_total_at_least_len(idx.entries@);
    lemma_map_of_len(idx.entries@);
    if idx.total_keys_spec() == 0 {
        assert(idx.entries@.len() == 0);
        assert(idx@ =~= Map::<Seq<u8>, Set<Seq<u8>>>::empty());
    }
    if idx@ == Map::<Seq<u8>, Set<Seq<u8>>>::empty() {
        assert(idx@.dom() =~= Set::<Seq<u8>>::empty());
        assert(idx.entries@.len() == 0);
    }
}

impl InverseIndex {
    /// The index's structural invariant: entries are well-formed, reference
    /// values are unique, and the running count matches the stored keys.
    pub closed spec fn wf(&self) -> bool {
        &&& entries_wf(self.entries@)
        &&& self.count as int == total_key_count(self.entries@)
    }

    /// How many keys the index holds in total, across all key sets.
    pub closed spec fn total_keys_spec(&self) -> int {
        total_key_count(self.entries@)
    }

    /// A fresh, empty index.
    pub fn new() -> (r: Self)
        ensures
            r.wf(),
            r@ == Map::<Seq<u8>, Set<Seq<u8>>>::empty(),
            r.total_keys_spec() == 0,
    {
        InverseIndex { entries: Vec::new(), count: 0 }
    }

    /// The position of the entry holding `value`, if any.
    fn find_value(&self, value: &RefValue) -> (r: Option<usize>)
        ensures
            r matches Some(i) ==> i < self.entries@.len()
                && self.entries@[i as int].value@ == value@,
            r is None ==> forall|j: int|
                0 <= j < self.entries@.len() ==> (#[trigger] self.entries@[j]).value@ != value@,
    {
        let n = self.entries.len();
        let mut i: usize = 0;
        while i < n
            invariant
                n == self.entries@.len(),
                0 <= i <= n,
                forall|j: int| 0 <= j < i ==> (#[trigger] self.entries@[j]).value@ != value@,
            decreases n - i,
        {
            if bytes_eq::<20>(&self.entries[i].value, value) {
                return Some(i);
            }
            i += 1;
        }
        None
    }

    /// Whether `key` already stands in the stored key list.
    fn contains_key(keys: &Vec<Key>, key: &Key) -> (r: bool)
        ensures
            r == key_set(keys@).contains(key@),
    {
        let n = keys.len();
        let mut i: usize = 0;
        while i < n
            invariant
                n == keys@.len(),
                0 <= i <= n,
                forall|j: int| 0 <= j < i ==> (#[trigger] keys@[j])@ != key@,
            decreases n - i,
        {
            if bytes_eq::<16>(&keys[i], key) {
                assert(key_set(keys@).contains(key@));
                return true;
            }
            i += 1;
        }
        assert(!key_set(keys@).contains(key@)) by {
            if key_set(keys@).contains(key@) {
                let j = choose|j: int| 0 <= j < keys@.len() && (#[trigger] keys@[j])@ == key@;
            }
        }
        false
    }

    /// Files `key` under `value`: the key joins the value's key set, a
    /// singleton set being created if the value was absent; filing a key
    /// that is already present changes nothing.
    pub fn insert_pair(&mut self, key: Key, value: RefValue)
        requires
            old(self).wf(),
            old(self).total_keys_spec() < usize::MAX,
        ensures
            final(self).wf(),
            final(self)@ == apply_pair(old(self)@, (key@, value@)),
            final(self).total_keys_spec() == old(self).total_keys_spec()
                + (if old(self)@.dom().contains(value@) && old(self)@[value@].contains(key@) {
                    0int
                } else {
                    1int
                }),
    {
        let ghost s0 = self.entries@;
        proof {
            lemma_map_of_dom(s0);
        }
        match self.find_value(&value) {
            None => {
                proof {
                    if value_set(s0).contains(value@) {
                        let i = choose|i: int| 0 <= i < s0.len() && (#[trigger] s0[i]).value@ == value@;
                        assert(false);
                    }
                }
                let mut ks: Vec<Key> = Vec::new();
                ks.push(key);
                self.entries.push(Entry { value, keys: ks });
                self.count = self.count + 1;
                proof {
                    let s1 = self.entries@;
                    assert(s1.drop_last() =~= s0);
                    assert(map_of(s1) == map_of(s0).insert(value@, key_set(s1.last().keys@)));
                    assert(key_set(s1.last().keys@) =~= Set::empty().insert(key@)) by {
                        assert(s1.last().keys@ == Seq::<Key>::empty().push(key));
                        lemma_key_set_push(Seq::<Key>::empty(), key);
                        assert(key_set(Seq::<Key>::empty()) =~= Set::<Seq<u8>>::empty()) by {
                            if exists|x: Seq<u8>| key_set(Seq::<Key>::empty()).contains(x) {
                                let x = choose|x: Seq<u8>| key_set(Seq::<Key>::empty()).contains(x);
                                let i = choose|i: int|
                                    0 <= i < Seq::<Key>::empty().len()
                                        && (#[trigger] Seq::<Key>::empty()[i])@ == x;
                            }
                        }
                    }
                    assert(entries_wf(s1)) by {
                        assert forall|i: int| 0 <= i < s1.len() implies entry_wf(#[trigger] s1[i]) by {
                            if i < s0.len() {
                                assert(s1[i] == s0[i]);
                            }
                        }
                        assert forall|i: int, j: int| 0 <= i < j < s1.len()
                            implies (#[trigger] s1[i]).value@ != (#[trigger] s1[j]).value@ by {
                            if j < s0.len() {
                                assert(s1[i] == s0[i] && s1[j] == s0[j]);
                            } else {
                                assert(s1[i] == s0[i]);
                                assert(s1[j].value@ == value@);
                            }
                        }
                    }
                }
            },
            Some(i) => {
                proof {
                    lemma_map_of_index(s0, i as int);
                }
                if Self::contains_key(&self.entries[i].keys, &key) {
                    proof {
                        let v = value@;
                        assert(old(self)@[v].insert(key@) =~= old(self)@[v]);
                        assert(old(self)@.insert(v, old(self)@[v]) =~= old(self)@);
                    }
                } else {
                    let mut e = self.entries.remove(i);
                    let ghost ks0 = e.keys@;
                    e.keys.push(key);
                    self.entries.insert(i, e);
                    self.count = self.count + 1;
                    proof {
                        let s1 = self.entries@;
                        let e1 = s1[i as int];
                        assert(s1 =~= s0.update(i as int, e1));
                        assert(e1.value@ == value@ && e1.keys@ == ks0.push(key));
                        lemma_key_set_push(ks0, key);
                        lemma_map_of_update(s0, i as int, e1);
                        lemma_total_update(s0, i as int, e1);
                        assert(entries_wf(s1)) by {
                            assert forall|p: int| 0 <= p < s1.len() implies entry_wf(#[trigger] s1[p]) by {
                                if p != i as int {
                                    assert(s1[p] == s0[p]);
                                } else {
                                    assert forall|a: int, b: int| 0 <= a < b < e1.keys@.len()
                                        implies (#[trigger] e1.keys@[a])@ != (#[trigger] e1.keys@[b])@ by {
                                        if b < ks0.len() {
                                            assert(e1.keys@[a] == ks0[a] && e1.keys@[b] == ks0[b]);
                                            assert(entry_wf(s0[i as int]));
                                        } else {
                                            assert(e1.keys@[b] == key);
                                            assert(e1.keys@[a] == ks0[a]);
                                            assert(!key_set(ks0).contains(key@));
                                            assert((#[trigger] ks0[a])@ != key@);
                                        }
                                    }
                                }
                            }
                            assert forall|p: int, q: int| 0 <= p < q < s1.len()
                                implies (#[trigger] s1[p]).value@ != (#[trigger] s1[q]).value@ by {
                                if p != i as int {
                                    assert(s1[p] == s0[p]);
                                }
                                if q != i as int {
                                    assert(s1[q] == s0[q]);
                                }
                            }
                        }
                    }
                }
            },
        }
    }

    /// Logically empties the index; the entry storage keeps its capacity
    /// for reuse.
    pub fn clear(&mut self)
        ensures
            final(self).wf(),
            final(self)@ == Map::<Seq<u8>, Set<Seq<u8>>>::empty(),
            final(self).total_keys_spec() == 0,
    {
        self.entries.clear();
        self.count = 0;
    }

    /// How many distinct reference values the index holds.
    pub fn len(&self) -> (r: usize)
        requires
            self.wf(),
        ensures
            self@.dom().finite(),
            r == self@.dom().len(),
    {
        proof {
            lemma_map_of_len(self.entries@);
        }
        self.entries.len()
    }

    /// How many keys the index holds in total, across all key sets.
    pub fn total_keys(&self) -> (r: usize)
        requires
            self.wf(),
        ensures
            r == self.total_keys_spec(),
    {
        self.count
    }
}

} // verus!
