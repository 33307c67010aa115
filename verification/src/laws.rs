//! What the fill strategies guarantee about the final mapping.
//!
//! Filing a sequence of drawn pairs into an empty index produces exactly
//! the mapping that sends each distinct drawn reference value to the set of
//! distinct keys drawn with it — so any two draw sequences with the same
//! distinct values and keys end in the same mapping, whichever strategy
//! filed them and in whichever order they were drawn.

use vstd::prelude::*;
use crate::fill::fill_effect;
use crate::index::{PairModel, accumulate_pairs, valid_pairs};

verus! {

/// The distinct reference values drawn in a pair sequence.
pub open spec fn values_of(pairs: Seq<PairModel>) -> Set<Seq<u8>> {
    Set::new(|v: Seq<u8>| exists|i: int| 0 <= i < pairs.len() && (#[trigger] pairs[i]).1 == v)
}

/// The distinct keys drawn together with the reference value `v`.
pub open spec fn keys_with(pairs: Seq<PairModel>, v: Seq<u8>) -> Set<Seq<u8>> {
    Set::new(
        |k: Seq<u8>|
            exists|i: int|
                0 <= i < pairs.len() && (#[trigger] pairs[i]).0 == k && pairs[i].1 == v,
    )
}

/// Filing any pair sequence into an empty mapping yields the mapping whose
/// reference values are exactly the distinct values drawn, each holding
/// exactly the set of distinct keys drawn with it.
pub proof fn lemma_accumulate_from_empty(pairs: Seq<PairModel>)
    ensures
        accumulate_pairs(Map::empty(), pairs).dom() == values_of(pairs),
        forall|v: Seq<u8>|
            values_of(pairs).contains(v)
                ==> #[trigger] accumulate_pairs(Map::empty(), pairs)[v] == keys_with(pairs, v),
    decreases pairs.len(),
{
    let m = accumulate_pairs(Map::empty(), pairs);
    if pairs.len() == 0 {
        assert(m.dom() =~= values_of(pairs)) by {
            assert forall|v: Seq<u8>| !values_of(pairs).contains(v) by {
                if values_of(pairs).contains(v) {
                    let i = choose|i: int|
                        0 <= i < pairs.len() && (#[trigger] pairs[i]).1 == v;
                }
            }
        }
    } else {
        let q = pairs.drop_last();
        let p = pairs.last();
        let mq = accumulate_pairs(Map::empty(), q);
        lemma_accumulate_from_empty(q);
        assert(m.dom() =~= values_of(pairs)) by {
            assert forall|v: Seq<u8>| m.dom().contains(v) implies values_of(pairs).contains(v) by {
                if v == p.1 {
                    assert((#[trigger] pairs[pairs.len() - 1]).1 == v);
                } else {
                    let i = choose|i: int| 0 <= i < q.len() && (#[trigger] q[i]).1 == v;
                    assert((#[trigger] pairs[i]).1 == v);
                }
            }
            assert forall|v: Seq<u8>| values_of(pairs).contains(v) implies m.dom().contains(v) by {
                let i = choose|i: int| 0 <= i < pairs.len() && (#[trigger] pairs[i]).1 == v;
                if i < pairs.len() - 1 {
                    assert((#[trigger] q[i]).1 == v);
                    assert(values_of(q).contains(v));
                }
            }
        }
        assert forall|v: Seq<u8>| values_of(pairs).contains(v) implies #[trigger] m[v]
            == keys_with(pairs, v) by {
            if v == p.1 {
                if mq.dom().contains(v) {
                    assert(m[v] == mq[v].insert(p.0));
                    assert(values_of(q).contains(v));
                    assert(mq[v] == keys_with(q, v));
                    assert(keys_with(q, v).insert(p.0) =~= keys_with(pairs, v)) by {
                        assert forall|k: Seq<u8>| keys_with(q, v).insert(p.0).contains(k)
                            implies keys_with(pairs, v).contains(k) by {
                            if k == p.0 {
                                assert((#[trigger] pairs[pairs.len() - 1]).0 == k
                                    && pairs[pairs.len() - 1].1 == v);
                            } else {
                                let i = choose|i: int|
                                    0 <= i < q.len() && (#[trigger] q[i]).0 == k && q[i].1 == v;
                                assert((#[trigger] pairs[i]).0 == k && pairs[i].1 == v);
                            }
                        }
                        assert forall|k: Seq<u8>| keys_with(pairs, v).contains(k)
                            implies keys_with(q, v).insert(p.0).contains(k) by {
                            let i = choose|i: int|
                                0 <= i < pairs.len() && (#[trigger] pairs[i]).0 == k
                                    && pairs[i].1 == v;
                            if i < pairs.len() - 1 {
                                assert((#[trigger] q[i]).0 == k && q[i].1 == v);
                                assert(keys_with(q, v).contains(k));
                            } else {
                                assert(k == p.0);
                            }
                        }
                    }
                } else {
                    assert(m[v] == Set::empty().insert(p.0));
                    assert(!values_of(q).contains(v));
                    assert(Set::empty().insert(p.0) =~= keys_with(pairs, v)) by {
                        assert forall|k: Seq<u8>| keys_with(pairs, v).contains(k)
                            implies k == p.0 by {
                            let i = choose|i: int|
                                0 <= i < pairs.len() && (#[trigger] pairs[i]).0 == k
                                    && pairs[i].1 == v;
                            if i < pairs.len() - 1 {
                                assert((#[trigger] q[i]).1 == v);
                                assert(values_of(q).contains(v));
                            }
                        }
                        assert((#[trigger] pairs[pairs.len() - 1]).0 == p.0
                            && pairs[pairs.len() - 1].1 == v);
                    }
                }
            } else {
                assert(m[v] == mq[v]);
                assert(values_of(q).contains(v)) by {
                    let i = choose|i: int|
                        0 <= i < pairs.len() && (#[trigger] pairs[i]).1 == v;
                    assert(i < pairs.len() - 1);
                    assert((#[trigger] q[i]).1 == v);
                }
                assert(keys_with(q, v) =~= keys_with(pairs, v)) by {
                    assert forall|k: Seq<u8>| keys_with(q, v).contains(k)
                        implies keys_with(pairs, v).contains(k) by {
                        let i = choose|i: int|
                            0 <= i < q.len() && (#[trigger] q[i]).0 == k && q[i].1 == v;
                        assert((#[trigger] pairs[i]).0 == k && pairs[i].1 == v);
                    }
                    assert forall|k: Seq<u8>| keys_with(pairs, v).contains(k)
                        implies keys_with(q, v).contains(k) by {
                        let i = choose|i: int|
                            0 <= i < pairs.len() && (#[trigger] pairs[i]).0 == k
                                && pairs[i].1 == v;
                        assert(i < pairs.len() - 1);
                        assert((#[trigger] q[i]).0 == k && q[i].1 == v);
                    }
                }
            }
        }
    }
}

/// The three strategies are interchangeable with respect to the final
/// mapping: two draw sequences with the same distinct reference values and,
/// for each, the same distinct keys, fill an empty mapping to the same
/// result, regardless of the order or multiplicity of the draws.
pub proof fn lemma_strategies_interchangeable(pa: Seq<PairModel>, pb: Seq<PairModel>)
    requires
        values_of(pa) == values_of(pb),
        forall|v: Seq<u8>|
            values_of(pa).contains(v) ==> #[trigger] keys_with(pa, v) == keys_with(pb, v),
    ensures
        accumulate_pairs(Map::empty(), pa) == accumulate_pairs(Map::empty(), pb),
{
    lemma_accumulate_from_empty(pa);
    lemma_accumulate_from_empty(pb);
    let m1 = accumulate_pairs(Map::<Seq<u8>, Set<Seq<u8>>>::empty(), pa);
    let m2 = accumulate_pairs(Map::<Seq<u8>, Set<Seq<u8>>>::empty(), pb);
    assert forall|v: Seq<u8>| m1.dom().contains(v) implies m1[v] == m2[v] by {
        assert(values_of(pa).contains(v));
    }
    assert(m1 =~= m2);
}

/// A fill into an empty mapping always admits a draw sequence that the
/// final mapping indexes exactly: its distinct values are the mapping's
/// reference values and its distinct keys per value are the mapping's key
/// sets.
pub proof fn lemma_fill_from_empty_indexes_draws(m1: Map<Seq<u8>, Set<Seq<u8>>>, n: nat)
    requires
        fill_effect(Map::empty(), m1, n),
    ensures
        exists|pairs: Seq<PairModel>|
            {
                &&& pairs.len() == n
                &&& valid_pairs(pairs)
                &&& m1.dom() == values_of(pairs)
                &&& forall|v: Seq<u8>|
                    values_of(pairs).contains(v) ==> m1[v] == #[trigger] keys_with(pairs, v)
            },
{
    let pairs = choose|pairs: Seq<PairModel>|
        pairs.len() == n && valid_pairs(pairs) && m1 == #[trigger] accumulate_pairs(
            Map::<Seq<u8>, Set<Seq<u8>>>::empty(),
            pairs,
        );
    lemma_accumulate_from_empty(pairs);
    assert(pairs.len() == n && valid_pairs(pairs) && m1.dom() == values_of(pairs)
        && forall|v: Seq<u8>|
        values_of(pairs).contains(v) ==> m1[v] == #[trigger] keys_with(pairs, v));
}

} // verus!
