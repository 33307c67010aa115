//! The three fill strategies.
//!
//! Each draws `amount` random pairs and files every one of them into the
//! inverse index; their externally observable contract is identical, stated
//! once as `fill_effect`. They differ only in how eagerly they materialize
//! the drawn pairs — not at all, fully with the buffer then iterated by
//! copy, or fully with the buffer then consumed — which trades peak
//! transient memory against memory retained after the call.

use vstd::prelude::*;
use crate::index::{
    InverseIndex, PairModel, accumulate_pairs, apply_pair, valid_pair, valid_pairs,
};
use crate::pairs::{BigStruct, Key, generate_random_pairs};

verus! {

/// What every fill strategy does to the index's model: some sequence of
/// exactly `n` well-sized pairs was drawn, and the final mapping is the old
/// one with each drawn key filed under its drawn reference value, in order.
pub open spec fn fill_effect(
    m0: Map<Seq<u8>, Set<Seq<u8>>>,
    m1: Map<Seq<u8>, Set<Seq<u8>>>,
    n: nat,
) -> bool {
    exists|pairs: Seq<PairModel>|
        pairs.len() == n && valid_pairs(pairs) && m1 == #[trigger] accumulate_pairs(m0, pairs)
}

/// Filing one more pair extends an accumulated sequence on the right.
proof fn lemma_accumulate_push(
    m: Map<Seq<u8>, Set<Seq<u8>>>,
    pairs: Seq<PairModel>,
    p: PairModel,
)
    ensures
        accumulate_pairs(m, pairs.push(p)) == apply_pair(accumulate_pairs(m, pairs), p),
{
    assert(pairs.push(p).drop_last() =~= pairs);
    assert(pairs.push(p).last() == p);
}

proof fn lemma_valid_pairs_push(pairs: Seq<PairModel>, p: PairModel)
    requires
        valid_pairs(pairs),
        valid_pair(p),
    ensures
        valid_pairs(pairs.push(p)),
{
    let appended = pairs.push(p);
    assert forall|j: int| 0 <= j < appended.len() implies valid_pair(#[trigger] appended[j]) by {
        if j < pairs.len() {
            assert(appended[j] == pairs[j]);
        } else {
            assert(appended[j] == p);
        }
    }
}

/// Fills the inverse index without materializing any drawn pair: each pair
/// is filed the moment it is drawn. Lowest peak transient memory; nothing
/// is retained beyond the index's own growth.
pub fn fill_map_light(inverse_map: &mut InverseIndex, amount: u32)
    requires
        old(inverse_map).wf(),
        old(inverse_map).total_keys_spec() + amount <= usize::MAX,
    ensures
        final(inverse_map).wf(),
        final(inverse_map).total_keys_spec() <= old(inverse_map).total_keys_spec() + amount,
        fill_effect(old(inverse_map)@, final(inverse_map)@, amount as nat),
{
    let ghost m0 = inverse_map@;
    let ghost t0 = inverse_map.total_keys_spec();
    let mut source = generate_random_pairs(amount);
    let ghost mut pairs: Seq<PairModel> = Seq::empty();
    let mut i: u32 = 0;
    while i < amount
        invariant
            0 <= i <= amount,
            source.remaining() == amount - i,
            inverse_map.wf(),
            pairs.len() == i as nat,
            valid_pairs(pairs),
            inverse_map@ == accumulate_pairs(m0, pairs),
            inverse_map.total_keys_spec() <= t0 + i,
            t0 + amount <= usize::MAX,
        decreases amount - i,
    {
        if let Some((key, rec)) = source.next_pair() {
            let ghost p: PairModel = (key@, rec.uuid@);
            inverse_map.insert_pair(key, rec.uuid);
            proof {
                lemma_accumulate_push(m0, pairs, p);
                lemma_valid_pairs_push(pairs, p);
                pairs = pairs.push(p);
            }
            i += 1;
        } else {
            proof {
                assert(false);
            }
        }
    }
    proof {
        assert(pairs.len() == amount as nat && valid_pairs(pairs)
            && inverse_map@ == accumulate_pairs(m0, pairs));
    }
}

/// Draws all `amount` pairs into a temporary buffer.
fn collect_pairs(amount: u32) -> (buf: Vec<(Key, BigStruct)>)
    ensures
        buf@.len() == amount as nat,
{
    let mut source = generate_random_pairs(amount);
    let mut buf: Vec<(Key, BigStruct)> = Vec::new();
    let mut i: u32 = 0;
    while i < amount
        invariant
            0 <= i <= amount,
            source.remaining() == amount - i,
            buf@.len() == i as nat,
        decreases amount - i,
    {
        if let Some(pair) = source.next_pair() {
            buf.push(pair);
            i += 1;
        } else {
            proof {
                assert(false);
            }
        }
    }
    buf
}

/// Fills the inverse index by first collecting all drawn pairs into a
/// temporary buffer, then filing them while only reading the buffer. Highest
/// peak transient memory during the collect phase; the buffer is released
/// when the call ends, so the retained level is reducible to that of
/// `fill_map_light` by an allocator trim.
pub fn fill_map_iter(inverse_map: &mut InverseIndex, amount: u32)
    requires
        old(inverse_map).wf(),
        old(inverse_map).total_keys_spec() + amount <= usize::MAX,
    ensures
        final(inverse_map).wf(),
        final(inverse_map).total_keys_spec() <= old(inverse_map).total_keys_spec() + amount,
        fill_effect(old(inverse_map)@, final(inverse_map)@, amount as nat),
{
    let ghost m0 = inverse_map@;
    let ghost t0 = inverse_map.total_keys_spec();
    let buf = collect_pairs(amount);
    let ghost mut pairs: Seq<PairModel> = Seq::empty();
    let n = buf.len();
    let mut j: usize = 0;
    while j < n
        invariant
            0 <= j <= n,
            n == buf@.len(),
            n == amount as nat,
            inverse_map.wf(),
            pairs.len() == j as nat,
            valid_pairs(pairs),
            inverse_map@ == accumulate_pairs(m0, pairs),
            inverse_map.total_keys_spec() <= t0 + j,
            t0 + amount <= usize::MAX,
        decreases n - j,
    {
        let (key, rec) = buf[j];
        let ghost p: PairModel = (key@, rec.uuid@);
        inverse_map.insert_pair(key, rec.uuid);
        proof {
            lemma_accumulate_push(m0, pairs, p);
            lemma_valid_pairs_push(pairs, p);
            pairs = pairs.push(p);
        }
        j += 1;
    }
}

/// Fills the inverse index by first collecting all drawn pairs into a
/// temporary buffer, then filing them while consuming the buffer, moving
/// each pair out. Peak transient memory sits slightly below
/// `fill_map_iter`'s; the buffer's backing allocation tends to linger as
/// residual overhead that no allocator trim reclaims while the index lives.
pub fn fill_map(inverse_map: &mut InverseIndex, amount: u32)
    requires
        old(inverse_map).wf(),
        old(inverse_map).total_keys_spec() + amount <= usize::MAX,
    ensures
        final(inverse_map).wf(),
        final(inverse_map).total_keys_spec() <= old(inverse_map).total_keys_spec() + amount,
        fill_effect(old(inverse_map)@, final(inverse_map)@, amount as nat),
{
    let ghost m0 = inverse_map@;
    let ghost t0 = inverse_map.total_keys_spec();
    let mut buf = collect_pairs(amount);
    let ghost mut pairs: Seq<PairModel> = Seq::empty();
    while buf.len() > 0
        invariant
            inverse_map.wf(),
            pairs.len() + buf@.len() == amount as nat,
            valid_pairs(pairs),
            inverse_map@ == accumulate_pairs(m0, pairs),
            inverse_map.total_keys_spec() <= t0 + pairs.len(),
            t0 + amount <= usize::MAX,
        decreases buf@.len(),
    {
        if let Some((key, rec)) = buf.pop() {
            let ghost p: PairModel = (key@, rec.uuid@);
            inverse_map.insert_pair(key, rec.uuid);
            proof {
                lemma_accumulate_push(m0, pairs, p);
                lemma_valid_pairs_push(pairs, p);
                pairs = pairs.push(p);
            }
        } else {
            proof {
                assert(false);
            }
        }
    }
}

} // verus!
