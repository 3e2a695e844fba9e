//! The prefix cache store: layer caches keyed by token sequence, in a device
//! tier bounded by an explicit eviction pass and an unbounded host tier.

use vstd::prelude::*;

use crate::eviction::{evicted_front, lemma_evicted_key_on_host, lemma_evicted_none, lemma_evicted_step, lemma_evicted_valid, Entry};
use crate::index::{
    index_entries, index_find, index_insert, index_len, index_new, index_remove_at, index_slot_at,
    SlotIndex,
};
use crate::tensor::{holds_no_tensors, layers_to_host, layout, share_layers, LayerCaches};
use crate::tier::{
    has_key, lemma_insert_keys, lemma_key_pos, lemma_key_pos_unique, lemma_remove_keys,
    tier_find, tier_insert, tier_keys, tier_remove, tiers_valid,
};

verus! {

/// Why an operation of the store failed.
#[derive(Debug)]
pub enum PrefixCacheError {
    /// The tensor runtime could not move a tensor; its error, unchanged.
    Transfer(candle_core::Error),
}

/// Layer caches keyed by the exact token sequence that produced them.
///
/// Each cache sits in one slot of `slots`; the two indexes map a key to its
/// slot, `caches` for the device tier and `cpu_caches` for the host tier, both
/// in insertion order.
pub struct PrefixCacheManager {
    caches: SlotIndex,
    cpu_caches: SlotIndex,
    slots: Vec<LayerCaches>,
    device: candle_core::Device,
    n_on_device: usize,
}

/// The tier that an index describes, with each slot replaced by its cache.
pub closed spec fn tier_of(index: Seq<(Seq<u32>, usize)>, slots: Seq<LayerCaches>) -> Seq<Entry> {
    index.map_values(|e: (Seq<u32>, usize)| (e.0, slots[e.1 as int]@))
}

/// Every entry of `index` names a slot below `n`, and no two name the same.
pub closed spec fn slots_distinct(index: Seq<(Seq<u32>, usize)>, n: int) -> bool {
    &&& forall|i: int| 0 <= i < index.len() ==> #[trigger] index[i].1 < n
    &&& forall|i: int, j: int|
        0 <= i < index.len() && 0 <= j < index.len() && i != j ==> #[trigger] index[i].1
            != #[trigger] index[j].1
}

impl PrefixCacheManager {
    /// The device tier: its entries in insertion order.
    pub closed spec fn device_tier(&self) -> Seq<Entry> {
        tier_of(index_entries(self.caches), self.slots@)
    }

    /// The host tier: its entries in the order they were evicted.
    pub closed spec fn host_tier(&self) -> Seq<Entry> {
        tier_of(index_entries(self.cpu_caches), self.slots@)
    }

    /// How many entries the device tier keeps after an eviction pass.
    pub closed spec fn capacity(&self) -> usize {
        self.n_on_device
    }

    /// The compute device that the store was made for.
    pub closed spec fn compute_device(&self) -> candle_core::Device {
        self.device
    }

    /// Every key held by either tier.
    pub open spec fn stored_keys(&self) -> Set<Seq<u32>> {
        tier_keys(self.device_tier()).union(tier_keys(self.host_tier()))
    }

    /// The tiers are valid and every entry owns a slot of its own.
    pub closed spec fn wf(&self) -> bool {
        let d = index_entries(self.caches);
        let h = index_entries(self.cpu_caches);
        &&& tiers_valid(self.device_tier(), self.host_tier())
        &&& slots_distinct(d, self.slots@.len() as int)
        &&& slots_distinct(h, self.slots@.len() as int)
        &&& forall|i: int, j: int| 0 <= i < d.len() && 0 <= j < h.len() ==> #[trigger] d[i].1 != #[trigger] h[j].1
    }

    /// An empty store on `device` whose device tier keeps `n_on_device` entries.
    pub fn new(device: candle_core::Device, n_on_device: usize) -> (r: Self)
        ensures
            r.wf(),
            r.capacity() == n_on_device,
            r.compute_device() == device,
            r.device_tier() == Seq::<Entry>::empty(),
            r.host_tier() == Seq::<Entry>::empty(),
    {
        let r = PrefixCacheManager {
            caches: index_new(),
            cpu_caches: index_new(),
            slots: Vec::new(),
            device,
            n_on_device,
        };
        assert(r.device_tier() =~= Seq::<Entry>::empty());
        assert(r.host_tier() =~= Seq::<Entry>::empty());
        r
    }

    /// Stores `cache` under the token sequence `toks` in the device tier,
    /// sharing its tensors. An entry of the device tier with that key keeps
    /// its place and takes the new cache; otherwise the entry goes last, and
    /// any host entry with that key is dropped. Nothing is evicted here.
    pub fn add_sequence(&mut self, toks: &[u32], cache: &LayerCaches)
        requires
            old(self).wf(),
        ensures
            final(self).wf(),
            final(self).capacity() == old(self).capacity(),
            final(self).device_tier() == tier_insert(old(self).device_tier(), toks@, cache@),
            final(self).host_tier() == tier_remove(old(self).host_tier(), toks@),
            final(self).stored_keys() == old(self).stored_keys().insert(toks@),
    {
        let ghost dev = self.device_tier();
        let ghost host = self.host_tier();
        let ghost d = index_entries(self.caches);
        let ghost h = index_entries(self.cpu_caches);
        let ghost k = toks@;
        let ghost v = cache@;
        proof {
            lemma_key_pos(dev, k);
            lemma_key_pos(host, k);
        }
        let stored = share_layers(cache);
        match index_find(&self.caches, toks) {
            Some((i, s)) => {
                assert(d[i as int].1 < self.slots@.len());
                self.slots.set(s, stored);
                proof {
                    lemma_key_pos_unique(dev, k, i as int);
                    if has_key(host, k) {
                        let j = choose|j: int| 0 <= j < host.len() && #[trigger] host[j].0 == k;
                        assert(dev[i as int].0 == host[j].0);
                    }
                    assert(self.device_tier() =~= dev.update(i as int, (k, v)));
                    assert(self.host_tier() =~= host);
                }
            },
            None => {
                assert(!has_key(dev, k));
                let s: usize;
                match index_find(&self.cpu_caches, toks) {
                    Some((j, s0)) => {
                        s = s0;
                        assert(h[j as int].1 < self.slots@.len());
                        proof {
                            lemma_key_pos_unique(host, k, j as int);
                        }
                        let _ = index_remove_at(&mut self.cpu_caches, j);
                        self.slots.set(s, stored);
                    },
                    None => {
                        s = self.slots.len();
                        self.slots.push(stored);
                    },
                }
                index_insert(&mut self.caches, vstd::slice::slice_to_vec(toks), s);
                proof {
                    assert(self.device_tier() =~= dev.push((k, v)));
                    assert(self.host_tier() =~= tier_remove(host, k));
                }
            },
        }
        proof {
            lemma_remove_keys(host, k);
            lemma_insert_keys(dev, tier_remove(host, k), k, v);
            assert(self.stored_keys() =~= old(self).stored_keys().insert(k));
        }
    }

    /// Moves the oldest device entry to the end of the host tier, where it
    /// holds `host_copy` in place of its device cache.
    fn move_front_to_host(&mut self, host_copy: LayerCaches)
        requires
            old(self).wf(),
            old(self).device_tier().len() > 0,
        ensures
            final(self).wf(),
            final(self).capacity() == old(self).capacity(),
            final(self).device_tier() == old(self).device_tier().drop_first(),
            final(self).host_tier() == old(self).host_tier().push(
                (old(self).device_tier()[0].0, host_copy@),
            ),
    {
        let ghost dev = self.device_tier();
        let ghost host = self.host_tier();
        let ghost d = index_entries(self.caches);
        let ghost h = index_entries(self.cpu_caches);
        if let Some((k, s)) = index_remove_at(&mut self.caches, 0) {
            assert(d[0].1 < self.slots@.len());
            self.slots.set(s, host_copy);
            proof {
                assert forall|j: int| 0 <= j < h.len() implies #[trigger] h[j].0 != k@ by {
                    assert(dev[0].0 == k@);
                    assert(host[j].0 == h[j].0);
                }
            }
            index_insert(&mut self.cpu_caches, k, s);
            proof {
                let d2 = index_entries(self.caches);
                assert forall|i: int| 0 <= i < d2.len() implies #[trigger] d2[i] == d[i + 1] by {}
                assert(self.device_tier() =~= dev.drop_first());
                assert(self.host_tier() =~= host.push((dev[0].0, host_copy@)));
            }
        }
    }

    /// Moves the oldest device entries to the host tier until the device tier
    /// holds no more than `capacity()` entries, and returns how many moved.
    /// Each entry moves whole: its tensors are brought to host memory first,
    /// and only then is it taken off the device. A failed transfer stops the
    /// pass with the runtime's error, the entries moved before it staying
    /// moved. Entries without tensors need no transfer, so a pass over such
    /// entries always succeeds.
    pub fn evict_to_cpu(&mut self) -> (r: Result<usize, PrefixCacheError>)
        requires
            old(self).wf(),
        ensures
            final(self).wf(),
            final(self).capacity() == old(self).capacity(),
            final(self).stored_keys() == old(self).stored_keys(),
            (forall|i: int|
                0 <= i < excess(old(self).device_tier().len() as int, old(self).capacity() as int)
                    ==> #[trigger] holds_no_tensors(old(self).device_tier()[i].1)) ==> r is Ok,
            old(self).device_tier().len() <= old(self).capacity() ==> (r matches Ok(0usize)
                && final(self).device_tier() == old(self).device_tier()
                && final(self).host_tier() == old(self).host_tier()),
            match r {
                Ok(n) => n == excess(old(self).device_tier().len() as int, old(self).capacity() as int)
                    && evicted_front(
                    old(self).device_tier(),
                    old(self).host_tier(),
                    final(self).device_tier(),
                    final(self).host_tier(),
                    n as int,
                ),
                Err(_) => exists|n: int|
                    0 <= n < excess(old(self).device_tier().len() as int, old(self).capacity() as int)
                        && !holds_no_tensors(old(self).device_tier()[n].1)
                        && #[trigger] evicted_front(
                        old(self).device_tier(),
                        old(self).host_tier(),
                        final(self).device_tier(),
                        final(self).host_tier(),
                        n,
                    ),
            },
    {
        let ghost dev = self.device_tier();
        let ghost host = self.host_tier();
        proof {
            lemma_evicted_none(dev, host);
        }
        let len = index_len(&self.caches);
        assert(len == dev.len());
        if len <= self.n_on_device {
            return Ok(0);
        }
        let count = len - self.n_on_device;
        let mut moved: usize = 0;
        while moved < count
            invariant
                self.wf(),
                self.n_on_device == old(self).n_on_device,
                dev == old(self).device_tier(),
                host == old(self).host_tier(),
                tiers_valid(dev, host),
                dev.len() > self.n_on_device,
                count == excess(dev.len() as int, self.n_on_device as int),
                moved <= count,
                evicted_front(dev, host, self.device_tier(), self.host_tier(), moved as int),
            decreases count - moved,
        {
            let ghost d = index_entries(self.caches);
            assert(self.device_tier().len() == dev.len() - moved);
            // The device tier still holds more than `n_on_device` entries, so
            // its front entry exists.
            if let Some(s) = index_slot_at(&self.caches, 0) {
                assert(d[0].1 < self.slots@.len());
                let copied = layers_to_host(&self.slots[s]);
                match copied {
                    Ok(host_copy) => {
                        proof {
                            lemma_evicted_step(
                                dev,
                                host,
                                self.device_tier(),
                                self.host_tier(),
                                moved as int,
                                host_copy@,
                            );
                        }
                        self.move_front_to_host(host_copy);
                    },
                    Err(e) => {
                        proof {
                            assert(self.device_tier()[0] == dev[moved as int]);
                            assert(self.slots@[s as int]@ == self.device_tier()[0].1);
                            assert(!holds_no_tensors(dev[moved as int].1));
                            lemma_evicted_valid(dev, host, self.device_tier(), self.host_tier(), moved as int);
                        }
                        return Err(PrefixCacheError::Transfer(e));
                    },
                }
            }
            moved = moved + 1;
        }
        proof {
            lemma_evicted_valid(dev, host, self.device_tier(), self.host_tier(), moved as int);
        }
        Ok(count)
    }
}

impl PrefixCacheManager {
    /// How many entries the device tier keeps after an eviction pass.
    pub fn n_on_device(&self) -> (r: usize)
        ensures
            r == self.capacity(),
    {
        self.n_on_device
    }

    /// The compute device that the store was made for.
    pub fn device(&self) -> (r: &candle_core::Device)
        ensures
            *r == self.compute_device(),
    {
        &self.device
    }

    /// How many entries the device tier holds.
    pub fn device_len(&self) -> (r: usize)
        requires
            self.wf(),
        ensures
            r == self.device_tier().len(),
    {
        index_len(&self.caches)
    }

    /// How many entries the host tier holds.
    pub fn host_len(&self) -> (r: usize)
        requires
            self.wf(),
        ensures
            r == self.host_tier().len(),
    {
        index_len(&self.cpu_caches)
    }

    /// Whether the device tier holds an entry under exactly `toks`.
    pub fn is_on_device(&self, toks: &[u32]) -> (r: bool)
        requires
            self.wf(),
        ensures
            r == has_key(self.device_tier(), toks@),
    {
        let found = index_find(&self.caches, toks);
        proof {
            if has_key(self.device_tier(), toks@) {
                let i = choose|i: int| 0 <= i < self.device_tier().len() && #[trigger] self.device_tier()[i].0 == toks@;
                assert(index_entries(self.caches)[i].0 == toks@);
            }
            if let Some((i, _)) = found {
                assert(self.device_tier()[i as int].0 == toks@);
            }
        }
        found.is_some()
    }

    /// Whether the host tier holds an entry under exactly `toks`.
    pub fn is_on_host(&self, toks: &[u32]) -> (r: bool)
        requires
            self.wf(),
        ensures
            r == has_key(self.host_tier(), toks@),
    {
        let found = index_find(&self.cpu_caches, toks);
        proof {
            if has_key(self.host_tier(), toks@) {
                let i = choose|i: int| 0 <= i < self.host_tier().len() && #[trigger] self.host_tier()[i].0 == toks@;
                assert(index_entries(self.cpu_caches)[i].0 == toks@);
            }
            if let Some((i, _)) = found {
                assert(self.host_tier()[i as int].0 == toks@);
            }
        }
        found.is_some()
    }

    /// Looks up the cache stored under exactly `toks`. A device entry is
    /// handed out as a second handle on its tensors. A host entry stays where
    /// it is and is brought to host memory through the runtime, which hands
    /// back a second handle on a tensor already there. `None` when neither
    /// tier holds the key; an error when a transfer of a host entry fails,
    /// which cannot happen to an entry without tensors.
    pub fn search_for_matching_cache(&self, toks: &[u32]) -> (r: Result<Option<LayerCaches>, PrefixCacheError>)
        requires
            self.wf(),
        ensures
            match tier_find(self.device_tier(), toks@) {
                Some(c) => r matches Ok(Some(x)) && x@ == c,
                None => match tier_find(self.host_tier(), toks@) {
                    Some(c) => !(r matches Ok(None)) && (r matches Ok(Some(x)) ==> layout(x@) == layout(c))
                        && (holds_no_tensors(c) ==> r is Ok),
                    None => r matches Ok(None),
                },
            },
    {
        let ghost dev = self.device_tier();
        let ghost host = self.host_tier();
        let ghost d = index_entries(self.caches);
        let ghost h = index_entries(self.cpu_caches);
        proof {
            lemma_key_pos(dev, toks@);
            lemma_key_pos(host, toks@);
        }
        if let Some((i, s)) = index_find(&self.caches, toks) {
            proof {
                lemma_key_pos_unique(dev, toks@, i as int);
            }
            assert(d[i as int].1 < self.slots@.len());
            Ok(Some(share_layers(&self.slots[s])))
        } else if let Some((j, s)) = index_find(&self.cpu_caches, toks) {
            proof {
                assert(!has_key(dev, toks@));
                lemma_key_pos_unique(host, toks@, j as int);
            }
            assert(h[j as int].1 < self.slots@.len());
            match layers_to_host(&self.slots[s]) {
                Ok(c) => Ok(Some(c)),
                Err(e) => Err(PrefixCacheError::Transfer(e)),
            }
        } else {
            proof {
                assert(!has_key(dev, toks@));
                assert(!has_key(host, toks@));
            }
            Ok(None)
        }
    }
}

/// No token sequence is a key of both tiers, in any state the store can reach.
pub proof fn lemma_tiers_exclusive(m: &PrefixCacheManager, k: Seq<u32>)
    requires
        m.wf(),
    ensures
        !(has_key(m.device_tier(), k) && has_key(m.host_tier(), k)),
        tiers_valid(m.device_tier(), m.host_tier()),
{
    if has_key(m.device_tier(), k) && has_key(m.host_tier(), k) {
        let i = choose|i: int| 0 <= i < m.device_tier().len() && #[trigger] m.device_tier()[i].0 == k;
        let j = choose|j: int| 0 <= j < m.host_tier().len() && #[trigger] m.host_tier()[j].0 == k;
        assert(m.device_tier()[i].0 != m.host_tier()[j].0);
    }
}

/// A key that the store does not hold is found in neither tier, so a lookup
/// of it reports no match. The store holds only keys that were added to it:
/// a new store holds none, adding a sequence adds its key, and eviction keeps
/// the keys.
pub proof fn lemma_unseen_key_misses(m: &PrefixCacheManager, k: Seq<u32>)
    requires
        !m.stored_keys().contains(k),
    ensures
        tier_find(m.device_tier(), k) is None,
        tier_find(m.host_tier(), k) is None,
{
    lemma_key_pos(m.device_tier(), k);
    lemma_key_pos(m.host_tier(), k);
}

/// An entry that an eviction pass moved is still found: not on the device,
/// but in the host tier, with a cache of the layer layout it was stored with,
/// so that a lookup of its key never reports a miss.
pub proof fn lemma_evicted_entry_found(before: &PrefixCacheManager, after: &PrefixCacheManager, n: int, i: int)
    requires
        before.wf(),
        evicted_front(before.device_tier(), before.host_tier(), after.device_tier(), after.host_tier(), n),
        0 <= i < n,
    ensures
        tier_find(after.device_tier(), before.device_tier()[i].0) is None,
        tier_find(after.host_tier(), before.device_tier()[i].0) matches Some(c) && layout(c) == layout(
            before.device_tier()[i].1,
        ),
{
    lemma_evicted_key_on_host(before.device_tier(), before.host_tier(), after.device_tier(), after.host_tier(), n, i);
}

/// How many entries exceed a capacity: none when there are no more than it.
pub open spec fn excess(len: int, capacity: int) -> int {
    if len > capacity {
        len - capacity
    } else {
        0
    }
}

} // verus!
