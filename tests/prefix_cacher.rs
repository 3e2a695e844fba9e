use candle_core::{Device, Tensor};
use prefix_cacher::{LayerCaches, PrefixCacheManager};

fn tensor(values: &[f32]) -> Tensor {
    Tensor::new(values, &Device::Cpu).unwrap()
}

/// Two layers with state and one without, tagged by `tag`.
fn caches(tag: f32) -> LayerCaches {
    vec![
        Some((tensor(&[tag, tag + 1.0]), tensor(&[tag + 2.0]))),
        None,
        Some((tensor(&[tag * 10.0]), tensor(&[tag * 100.0, 0.5]))),
    ]
}

fn values(c: &LayerCaches) -> Vec<Option<(Vec<f32>, Vec<f32>)>> {
    c.iter()
        .map(|l| {
            l.as_ref()
                .map(|(q, k)| (q.to_vec1::<f32>().unwrap(), k.to_vec1::<f32>().unwrap()))
        })
        .collect()
}

fn store_with(n_on_device: usize, keys: &[&[u32]]) -> PrefixCacheManager {
    let mut m = PrefixCacheManager::new(Device::Cpu, n_on_device);
    for (i, k) in keys.iter().enumerate() {
        m.add_sequence(k, &caches(i as f32));
    }
    m
}

#[test]
fn new_store_is_empty() {
    let m = PrefixCacheManager::new(Device::Cpu, 4);
    assert_eq!(m.n_on_device(), 4);
    assert_eq!(m.device_len(), 0);
    assert_eq!(m.host_len(), 0);
    assert!(m.search_for_matching_cache(&[1, 2]).unwrap().is_none());
}

#[test]
fn insert_then_find_on_device() {
    let mut m = PrefixCacheManager::new(Device::Cpu, 4);
    let c = caches(3.0);
    m.add_sequence(&[1, 2, 3], &c);
    assert!(m.is_on_device(&[1, 2, 3]));
    let found = m.search_for_matching_cache(&[1, 2, 3]).unwrap().unwrap();
    assert_eq!(values(&found), values(&c));
    // A device hit shares the stored tensors.
    let (q, _) = found[0].as_ref().unwrap();
    assert_eq!(q.id(), c[0].as_ref().unwrap().0.id());
}

#[test]
fn miss_on_unseen_key() {
    let m = store_with(1, &[&[1, 2], &[3, 4], &[5, 6]]);
    assert!(m.search_for_matching_cache(&[7, 8]).unwrap().is_none());
    // Matching is exact: a prefix or an extension of a key is no hit.
    assert!(m.search_for_matching_cache(&[1]).unwrap().is_none());
    assert!(m.search_for_matching_cache(&[1, 2, 3]).unwrap().is_none());
    assert!(m.search_for_matching_cache(&[2, 1]).unwrap().is_none());
    assert!(m.search_for_matching_cache(&[]).unwrap().is_none());
}

#[test]
fn eviction_moves_oldest_first() {
    let keys: [&[u32]; 5] = [&[1], &[2], &[3], &[4], &[5]];
    let mut m = store_with(2, &keys);
    assert_eq!(m.device_len(), 5);
    assert_eq!(m.evict_to_cpu().unwrap(), 3);
    assert_eq!(m.device_len(), 2);
    assert_eq!(m.host_len(), 3);
    for k in &keys[..3] {
        assert!(m.is_on_host(k));
        assert!(!m.is_on_device(k));
    }
    for k in &keys[3..] {
        assert!(m.is_on_device(k));
        assert!(!m.is_on_host(k));
    }
    // A second pass finds nothing to do.
    assert_eq!(m.evict_to_cpu().unwrap(), 0);
    assert_eq!(m.device_len(), 2);
}

#[test]
fn eviction_is_a_no_op_under_capacity() {
    let mut m = store_with(3, &[&[1], &[2], &[3]]);
    assert_eq!(m.evict_to_cpu().unwrap(), 0);
    assert_eq!(m.device_len(), 3);
    assert_eq!(m.host_len(), 0);

    let mut empty = PrefixCacheManager::new(Device::Cpu, 0);
    assert_eq!(empty.evict_to_cpu().unwrap(), 0);

    let mut below = store_with(5, &[&[1]]);
    assert_eq!(below.evict_to_cpu().unwrap(), 0);
    assert!(below.is_on_device(&[1]));
}

#[test]
fn zero_capacity_evicts_everything() {
    let mut m = store_with(0, &[&[1], &[2]]);
    assert_eq!(m.evict_to_cpu().unwrap(), 2);
    assert_eq!(m.device_len(), 0);
    assert_eq!(m.host_len(), 2);
}

#[test]
fn tiers_stay_exclusive() {
    let mut m = store_with(1, &[&[1, 1], &[2, 2]]);
    assert_eq!(m.evict_to_cpu().unwrap(), 1);
    assert!(m.is_on_host(&[1, 1]) && !m.is_on_device(&[1, 1]));
    // Adding a key that sits in the host tier brings it back to the device only.
    let fresh = caches(42.0);
    m.add_sequence(&[1, 1], &fresh);
    assert!(m.is_on_device(&[1, 1]));
    assert!(!m.is_on_host(&[1, 1]));
    assert_eq!(m.device_len(), 2);
    assert_eq!(m.host_len(), 0);
    let found = m.search_for_matching_cache(&[1, 1]).unwrap().unwrap();
    assert_eq!(values(&found), values(&fresh));
}

#[test]
fn insert_overwrites_in_place() {
    let mut m = store_with(1, &[&[1], &[2]]);
    let newer = caches(9.0);
    m.add_sequence(&[1], &newer);
    assert_eq!(m.device_len(), 2);
    let found = m.search_for_matching_cache(&[1]).unwrap().unwrap();
    assert_eq!(values(&found), values(&newer));
    // The overwritten entry keeps its place as the oldest.
    assert_eq!(m.evict_to_cpu().unwrap(), 1);
    assert!(m.is_on_host(&[1]));
    assert!(m.is_on_device(&[2]));
}

#[test]
fn lookup_after_eviction() {
    let mut m = PrefixCacheManager::new(Device::Cpu, 0);
    let c = caches(7.0);
    m.add_sequence(&[10, 20, 30], &c);
    assert_eq!(m.evict_to_cpu().unwrap(), 1);
    let found = m.search_for_matching_cache(&[10, 20, 30]).unwrap().unwrap();
    assert_eq!(found.len(), 3);
    assert!(found[1].is_none());
    assert_eq!(values(&found), values(&c));
    // The lookup leaves the host entry where it is.
    assert!(m.is_on_host(&[10, 20, 30]));
    assert_eq!(m.host_len(), 1);
    let again = m.search_for_matching_cache(&[10, 20, 30]).unwrap().unwrap();
    assert_eq!(values(&again), values(&c));
}

#[test]
fn empty_token_sequence_is_a_key() {
    let mut m = PrefixCacheManager::new(Device::Cpu, 1);
    let c = caches(1.0);
    m.add_sequence(&[], &c);
    let found = m.search_for_matching_cache(&[]).unwrap().unwrap();
    assert_eq!(values(&found), values(&c));
}

#[test]
fn three_sequences_capacity_two() {
    let mut m = PrefixCacheManager::new(Device::Cpu, 2);
    let c12 = caches(1.0);
    let c34 = caches(3.0);
    let c56 = caches(5.0);
    m.add_sequence(&[1, 2], &c12);
    m.add_sequence(&[3, 4], &c34);
    m.add_sequence(&[5, 6], &c56);
    assert_eq!(m.device_len(), 3);
    assert_eq!(m.evict_to_cpu().unwrap(), 1);
    assert_eq!(m.device_len(), 2);
    assert!(m.is_on_host(&[1, 2]));
    assert!(m.is_on_device(&[3, 4]));
    assert!(m.is_on_device(&[5, 6]));
    let found = m.search_for_matching_cache(&[3, 4]).unwrap().unwrap();
    assert_eq!(values(&found), values(&c34));
    assert!(m.search_for_matching_cache(&[7, 8]).unwrap().is_none());
}

#[test]
fn three_sequences_capacity_one() {
    let mut m = PrefixCacheManager::new(Device::Cpu, 1);
    let c34 = caches(3.0);
    m.add_sequence(&[1, 2], &caches(1.0));
    m.add_sequence(&[3, 4], &c34);
    m.add_sequence(&[5, 6], &caches(5.0));
    assert_eq!(m.evict_to_cpu().unwrap(), 2);
    assert_eq!(m.device_len(), 1);
    assert!(m.is_on_device(&[5, 6]));
    assert_eq!(m.host_len(), 2);
    assert!(m.is_on_host(&[1, 2]));
    assert!(m.is_on_host(&[3, 4]));
    let found = m.search_for_matching_cache(&[3, 4]).unwrap().unwrap();
    assert_eq!(values(&found), values(&c34));
    assert!(m.search_for_matching_cache(&[7, 8]).unwrap().is_none());
}

#[test]
fn store_keeps_its_device() {
    let m = PrefixCacheManager::new(Device::Cpu, 2);
    assert!(m.device().is_cpu());
}

#[test]
fn entries_without_tensors_evict_and_look_up() {
    let mut m = PrefixCacheManager::new(Device::Cpu, 0);
    let no_pairs: LayerCaches = vec![None, None];
    let no_layers: LayerCaches = Vec::new();
    m.add_sequence(&[1, 2], &no_pairs);
    m.add_sequence(&[3], &no_layers);
    assert_eq!(m.evict_to_cpu().unwrap(), 2);
    assert!(m.is_on_host(&[1, 2]));
    assert!(m.is_on_host(&[3]));
    let found = m.search_for_matching_cache(&[1, 2]).unwrap().unwrap();
    assert_eq!(found.len(), 2);
    assert!(found.iter().all(|l| l.is_none()));
    let empty = m.search_for_matching_cache(&[3]).unwrap().unwrap();
    assert!(empty.is_empty());
}
