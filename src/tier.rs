//! The mathematical model of one tier: a sequence of entries in insertion
//! order, each a token sequence with the value stored under it.

use vstd::prelude::*;

verus! {

/// Position of the last entry keyed by `k`, or -1 when there is none.
pub open spec fn key_pos<V>(tier: Seq<(Seq<u32>, V)>, k: Seq<u32>) -> int
    decreases tier.len(),
{
    if tier.len() == 0 {
        -1
    } else if tier.last().0 == k {
        tier.len() - 1
    } else {
        key_pos(tier.drop_last(), k)
    }
}

/// Some entry of the tier is keyed by `k`.
pub open spec fn has_key<V>(tier: Seq<(Seq<u32>, V)>, k: Seq<u32>) -> bool {
    exists|i: int| 0 <= i < tier.len() && #[trigger] tier[i].0 == k
}

/// No two entries of the tier share a key.
pub open spec fn keys_unique<V>(tier: Seq<(Seq<u32>, V)>) -> bool {
    forall|i: int, j: int| 0 <= i < tier.len() && 0 <= j < tier.len() && i != j
        ==> #[trigger] tier[i].0 != #[trigger] tier[j].0
}

/// No key is held by both tiers.
pub open spec fn tiers_disjoint<V, W>(a: Seq<(Seq<u32>, V)>, b: Seq<(Seq<u32>, W)>) -> bool {
    forall|i: int, j: int| 0 <= i < a.len() && 0 <= j < b.len() ==> #[trigger] a[i].0 != #[trigger] b[j].0
}

/// The set of keys held by a tier.
pub open spec fn tier_keys<V>(tier: Seq<(Seq<u32>, V)>) -> Set<Seq<u32>> {
    Set::new(|k: Seq<u32>| has_key(tier, k))
}

/// The value stored under `k`, if any.
pub open spec fn tier_find<V>(tier: Seq<(Seq<u32>, V)>, k: Seq<u32>) -> Option<V> {
    if key_pos(tier, k) >= 0 {
        Some(tier[key_pos(tier, k)].1)
    } else {
        None
    }
}

/// Stores `v` under `k`: an entry keyed by `k` keeps its place and takes the
/// new value; otherwise the entry goes last.
pub open spec fn tier_insert<V>(tier: Seq<(Seq<u32>, V)>, k: Seq<u32>, v: V) -> Seq<(Seq<u32>, V)> {
    if key_pos(tier, k) >= 0 {
        tier.update(key_pos(tier, k), (k, v))
    } else {
        tier.push((k, v))
    }
}

/// Drops the entry keyed by `k`, if any, keeping the order of the rest.
pub open spec fn tier_remove<V>(tier: Seq<(Seq<u32>, V)>, k: Seq<u32>) -> Seq<(Seq<u32>, V)> {
    if key_pos(tier, k) >= 0 {
        tier.remove(key_pos(tier, k))
    } else {
        tier
    }
}

/// What `key_pos` finds: an entry keyed by `k`, after which no entry has that
/// key; -1 exactly when no entry has it.
pub proof fn lemma_key_pos<V>(tier: Seq<(Seq<u32>, V)>, k: Seq<u32>)
    ensures
        -1 <= key_pos(tier, k) < tier.len(),
        key_pos(tier, k) >= 0 ==> tier[key_pos(tier, k)].0 == k,
        forall|i: int| key_pos(tier, k) < i < tier.len() ==> #[trigger] tier[i].0 != k,
        key_pos(tier, k) == -1 <==> !has_key(tier, k),
    decreases tier.len(),
{
    if tier.len() > 0 && tier.last().0 != k {
        lemma_key_pos(tier.drop_last(), k);
        assert forall|i: int| key_pos(tier, k) < i < tier.len() implies #[trigger] tier[i].0 != k by {
            if i < tier.len() - 1 {
                assert(tier.drop_last()[i] == tier[i]);
            }
        }
        if has_key(tier, k) {
            let i = choose|i: int| 0 <= i < tier.len() && #[trigger] tier[i].0 == k;
            assert(tier.drop_last()[i].0 == k);
        }
    }
}

/// In a tier whose keys are unique, the entry keyed by `k` sits at `key_pos`.
pub proof fn lemma_key_pos_unique<V>(tier: Seq<(Seq<u32>, V)>, k: Seq<u32>, i: int)
    requires
        keys_unique(tier),
        0 <= i < tier.len(),
        tier[i].0 == k,
    ensures
        key_pos(tier, k) == i,
{
    lemma_key_pos(tier, k);
}

/// Storing `v` under `k` and then looking `k` up gives `v`.
pub proof fn lemma_insert_then_find<V>(tier: Seq<(Seq<u32>, V)>, k: Seq<u32>, v: V)
    ensures
        tier_find(tier_insert(tier, k, v), k) == Some(v),
{
    let t2 = tier_insert(tier, k, v);
    lemma_key_pos(tier, k);
    lemma_key_pos(t2, k);
    let p = key_pos(tier, k);
    if p >= 0 {
        assert(t2[p].0 == k);
        if key_pos(t2, k) != p {
            assert(t2[key_pos(t2, k)].0 == k);
        }
    } else {
        assert(t2[tier.len() as int].0 == k);
    }
}

/// Storing under `k` keeps the keys unique, adds `k` to the keys, and keeps
/// the tier apart from any tier that lacks `k`.
pub proof fn lemma_insert_keys<V, W>(tier: Seq<(Seq<u32>, V)>, other: Seq<(Seq<u32>, W)>, k: Seq<u32>, v: V)
    requires
        keys_unique(tier),
        tiers_disjoint(tier, other),
        !has_key(other, k),
    ensures
        keys_unique(tier_insert(tier, k, v)),
        tier_keys(tier_insert(tier, k, v)) == tier_keys(tier).insert(k),
        tiers_disjoint(tier_insert(tier, k, v), other),
{
    lemma_key_pos(tier, k);
    let t2 = tier_insert(tier, k, v);
    assert forall|i: int| 0 <= i < t2.len() implies (#[trigger] t2[i]).0 == k || t2[i].0 == tier[i].0 by {}
    assert(tier_keys(t2) =~= tier_keys(tier).insert(k)) by {
        assert forall|x: Seq<u32>| #[trigger] has_key(t2, x) == (x == k || has_key(tier, x)) by {
            if x == k {
                if key_pos(tier, k) >= 0 {
                    assert(t2[key_pos(tier, k)].0 == k);
                } else {
                    assert(t2[tier.len() as int].0 == k);
                }
            } else {
                if has_key(tier, x) {
                    let i = choose|i: int| 0 <= i < tier.len() && #[trigger] tier[i].0 == x;
                    assert(t2[i].0 == x);
                }
                if has_key(t2, x) {
                    let i = choose|i: int| 0 <= i < t2.len() && #[trigger] t2[i].0 == x;
                    assert(tier[i].0 == x);
                }
            }
        }
    }
    assert forall|i: int, j: int| 0 <= i < t2.len() && 0 <= j < other.len() implies
        #[trigger] t2[i].0 != #[trigger] other[j].0 by {
        if t2[i].0 != k {
            assert(t2[i].0 == tier[i].0);
        }
    }
}

/// Dropping the entry keyed by `k` keeps the keys unique and removes `k`
/// from the keys.
pub proof fn lemma_remove_keys<V>(tier: Seq<(Seq<u32>, V)>, k: Seq<u32>)
    requires
        keys_unique(tier),
    ensures
        keys_unique(tier_remove(tier, k)),
        tier_keys(tier_remove(tier, k)) == tier_keys(tier).remove(k),
{
    lemma_key_pos(tier, k);
    let p = key_pos(tier, k);
    let t2 = tier_remove(tier, k);
    if p >= 0 {
        assert forall|i: int| 0 <= i < t2.len() implies #[trigger] t2[i] == (if i < p { tier[i] } else { tier[i + 1] }) by {}
        assert(tier_keys(t2) =~= tier_keys(tier).remove(k)) by {
            assert forall|x: Seq<u32>| #[trigger] has_key(t2, x) == (x != k && has_key(tier, x)) by {
                if has_key(t2, x) {
                    let i = choose|i: int| 0 <= i < t2.len() && #[trigger] t2[i].0 == x;
                    if i < p {
                        assert(tier[i].0 == x);
                    } else {
                        assert(tier[i + 1].0 == x);
                    }
                }
                if x != k && has_key(tier, x) {
                    let i = choose|i: int| 0 <= i < tier.len() && #[trigger] tier[i].0 == x;
                    if i < p {
                        assert(t2[i].0 == x);
                    } else {
                        assert(i != p);
                        assert(t2[i - 1].0 == x);
                    }
                }
            }
        }
    } else {
        assert(tier_keys(t2) =~= tier_keys(tier).remove(k));
    }
}

} // verus!

verus! {

/// Both tiers have unique keys and share none.
pub open spec fn tiers_valid<V, W>(a: Seq<(Seq<u32>, V)>, b: Seq<(Seq<u32>, W)>) -> bool {
    &&& keys_unique(a)
    &&& keys_unique(b)
    &&& tiers_disjoint(a, b)
}

} // verus!
