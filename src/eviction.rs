//! What an eviction pass does to the two tiers, stated over the tier model.

use vstd::prelude::*;

use crate::tensor::{layout, LayerCache};
use crate::tier::{has_key, lemma_key_pos, lemma_key_pos_unique, tier_find, tier_keys, tiers_valid};

verus! {

/// An entry of a tier: a token sequence and the layer caches stored under it.
pub type Entry = (Seq<u32>, Seq<LayerCache>);

/// The `n` oldest device entries went, in their order, to the end of the host
/// tier, each under its key and with a cache of the same layer layout; nothing
/// else changed.
pub open spec fn evicted_front(
    dev: Seq<Entry>,
    host: Seq<Entry>,
    dev2: Seq<Entry>,
    host2: Seq<Entry>,
    n: int,
) -> bool {
    &&& 0 <= n <= dev.len()
    &&& dev2 == dev.skip(n)
    &&& host2.len() == host.len() + n
    &&& host2.take(host.len() as int) == host
    &&& forall|i: int|
        0 <= i < n ==> (#[trigger] host2[host.len() + i]).0 == dev[i].0 && layout(host2[host.len() + i].1)
            == layout(dev[i].1)
}

/// An empty pass changes nothing.
pub proof fn lemma_evicted_none(dev: Seq<Entry>, host: Seq<Entry>)
    ensures
        evicted_front(dev, host, dev, host, 0),
{
    assert(dev.skip(0) =~= dev);
    assert(host.take(host.len() as int) =~= host);
}

/// One more entry moved from the front of the device tier extends a pass.
pub proof fn lemma_evicted_step(
    dev: Seq<Entry>,
    host: Seq<Entry>,
    dev2: Seq<Entry>,
    host2: Seq<Entry>,
    n: int,
    copy: Seq<LayerCache>,
)
    requires
        evicted_front(dev, host, dev2, host2, n),
        n < dev.len(),
        layout(copy) == layout(dev2[0].1),
    ensures
        evicted_front(dev, host, dev2.drop_first(), host2.push((dev2[0].0, copy)), n + 1),
{
    let h3 = host2.push((dev2[0].0, copy));
    assert(dev2.drop_first() =~= dev.skip(n + 1));
    assert(h3.take(host.len() as int) =~= host) by {
        assert forall|i: int| 0 <= i < host.len() implies h3[i] == host[i] by {
            assert(host2.take(host.len() as int)[i] == host2[i]);
        }
    }
    assert forall|i: int| 0 <= i < n + 1 implies (#[trigger] h3[host.len() + i]).0 == dev[i].0 && layout(
        h3[host.len() + i].1,
    ) == layout(dev[i].1) by {
        if i == n {
            assert(dev2[0] == dev[n]);
        } else {
            assert(h3[host.len() + i] == host2[host.len() + i]);
        }
    }
}

/// A pass keeps the tiers valid and keeps the set of stored keys.
pub proof fn lemma_evicted_valid(dev: Seq<Entry>, host: Seq<Entry>, dev2: Seq<Entry>, host2: Seq<Entry>, n: int)
    requires
        tiers_valid(dev, host),
        evicted_front(dev, host, dev2, host2, n),
    ensures
        tiers_valid(dev2, host2),
        tier_keys(dev2).union(tier_keys(host2)) == tier_keys(dev).union(tier_keys(host)),
{
    // host2[j] holds host[j] below host.len(), and dev[j - host.len()] above.
    assert forall|j: int| 0 <= j < host2.len() implies (#[trigger] host2[j]).0 == (if j < host.len() {
        host[j].0
    } else {
        dev[j - host.len()].0
    }) by {
        if j < host.len() {
            assert(host2.take(host.len() as int)[j] == host2[j]);
        } else {
            assert(host2[host.len() + (j - host.len())] == host2[j]);
        }
    }
    assert forall|i: int, j: int| 0 <= i < host2.len() && 0 <= j < host2.len() && i != j implies
        #[trigger] host2[i].0 != #[trigger] host2[j].0 by {}
    assert forall|i: int, j: int| 0 <= i < dev2.len() && 0 <= j < host2.len() implies
        #[trigger] dev2[i].0 != #[trigger] host2[j].0 by {
        assert(dev2[i] == dev[i + n]);
    }
    assert forall|i: int, j: int| 0 <= i < dev2.len() && 0 <= j < dev2.len() && i != j implies
        #[trigger] dev2[i].0 != #[trigger] dev2[j].0 by {
        assert(dev2[i] == dev[i + n]);
        assert(dev2[j] == dev[j + n]);
    }
    let before = tier_keys(dev).union(tier_keys(host));
    let after = tier_keys(dev2).union(tier_keys(host2));
    assert(after =~= before) by {
        assert forall|k: Seq<u32>| after.contains(k) implies before.contains(k) by {
            if has_key(dev2, k) {
                let i = choose|i: int| 0 <= i < dev2.len() && #[trigger] dev2[i].0 == k;
                assert(dev[i + n].0 == k);
            } else {
                let j = choose|j: int| 0 <= j < host2.len() && #[trigger] host2[j].0 == k;
                if j < host.len() {
                    assert(host[j].0 == k);
                } else {
                    assert(dev[j - host.len()].0 == k);
                }
            }
        }
        assert forall|k: Seq<u32>| before.contains(k) implies after.contains(k) by {
            if has_key(host, k) {
                let j = choose|j: int| 0 <= j < host.len() && #[trigger] host[j].0 == k;
                assert(host2[j].0 == k);
            } else {
                let i = choose|i: int| 0 <= i < dev.len() && #[trigger] dev[i].0 == k;
                if i < n {
                    assert(host2[host.len() + i].0 == k);
                } else {
                    assert(dev2[i - n].0 == k);
                }
            }
        }
    }
}

/// After a pass that moved the entry at position `i` of the device tier, its
/// key is found in the host tier, not on the device, with a cache of the same
/// layer layout as the one that was stored.
pub proof fn lemma_evicted_key_on_host(
    dev: Seq<Entry>,
    host: Seq<Entry>,
    dev2: Seq<Entry>,
    host2: Seq<Entry>,
    n: int,
    i: int,
)
    requires
        tiers_valid(dev, host),
        evicted_front(dev, host, dev2, host2, n),
        0 <= i < n,
    ensures
        tier_find(dev2, dev[i].0) is None,
        tier_find(host2, dev[i].0) matches Some(c) && layout(c) == layout(dev[i].1),
{
    let k = dev[i].0;
    lemma_evicted_valid(dev, host, dev2, host2, n);
    lemma_key_pos(dev2, k);
    if has_key(dev2, k) {
        let j = choose|j: int| 0 <= j < dev2.len() && #[trigger] dev2[j].0 == k;
        assert(dev[j + n].0 == k);
    }
    assert(host2[host.len() + i].0 == k);
    lemma_key_pos_unique(host2, k, host.len() + i);
}

} // verus!
