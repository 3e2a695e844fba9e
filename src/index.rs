//! Insertion-ordered maps from token sequences to slot numbers, kept in
//! `indexmap::IndexMap` and seen by the proofs as a sequence of entries.

use vstd::prelude::*;

use indexmap::IndexMap;

verus! {

#[verifier::external_type_specification]
#[verifier::external_body]
#[verifier::reject_recursive_types(K)]
#[verifier::reject_recursive_types(V)]
#[verifier::reject_recursive_types(S)]
pub struct ExIndexMap<K, V, S>(indexmap::IndexMap<K, V, S>);

/// A map from token sequences to slot numbers.
pub type SlotIndex = IndexMap<Vec<u32>, usize>;

/// The entries of an index in their order: each key with its slot.
pub uninterp spec fn index_entries(m: SlotIndex) -> Seq<(Seq<u32>, usize)>;

/// Relies on `IndexMap::new`: a map with no entries.
#[verifier::external_body]
pub(crate) fn index_new() -> (r: SlotIndex)
    ensures
        index_entries(r) == Seq::<(Seq<u32>, usize)>::empty(),
{
    IndexMap::new()
}

/// Relies on `IndexMap::len`: the number of entries.
#[verifier::external_body]
pub(crate) fn index_len(m: &SlotIndex) -> (r: usize)
    ensures
        r == index_entries(*m).len(),
{
    m.len()
}

/// Relies on `IndexMap::get_full`: the position and slot of the entry whose key
/// equals `k`, or `None` when no entry has that key.
#[verifier::external_body]
pub(crate) fn index_find(m: &SlotIndex, k: &[u32]) -> (r: Option<(usize, usize)>)
    ensures
        match r {
            Some((i, v)) => i < index_entries(*m).len() && index_entries(*m)[i as int] == (k@, v),
            None => forall|i: int|
                0 <= i < index_entries(*m).len() ==> #[trigger] index_entries(*m)[i].0 != k@,
        },
{
    m.get_full(k).map(|(i, _, v)| (i, *v))
}

/// Relies on `IndexMap::get_index`: the slot of the entry at position `i`.
#[verifier::external_body]
pub(crate) fn index_slot_at(m: &SlotIndex, i: usize) -> (r: Option<usize>)
    ensures
        i < index_entries(*m).len() ==> r == Some(index_entries(*m)[i as int].1),
        i >= index_entries(*m).len() ==> r is None,
{
    m.get_index(i).map(|(_, v)| *v)
}

/// Relies on `IndexMap::insert`: an entry whose key equals `k` keeps its
/// position and takes the slot `v`; otherwise the entry is added last.
#[verifier::external_body]
pub(crate) fn index_insert(m: &mut SlotIndex, k: Vec<u32>, v: usize)
    ensures
        (exists|i: int|
            0 <= i < index_entries(*old(m)).len() && #[trigger] index_entries(*old(m))[i].0 == k@
                && index_entries(*final(m)) == index_entries(*old(m)).update(i, (k@, v)))
            || ((forall|i: int|
            0 <= i < index_entries(*old(m)).len() ==> #[trigger] index_entries(*old(m))[i].0 != k@)
                && index_entries(*final(m)) == index_entries(*old(m)).push((k@, v))),
{
    m.insert(k, v);
}

/// Relies on `IndexMap::shift_remove_index`: removes the entry at position `i`,
/// keeping the order of the others, and hands it back.
#[verifier::external_body]
pub(crate) fn index_remove_at(m: &mut SlotIndex, i: usize) -> (r: Option<(Vec<u32>, usize)>)
    ensures
        i < index_entries(*old(m)).len() ==> (r matches Some((k, v)) && (k@, v) == index_entries(
            *old(m),
        )[i as int] && index_entries(*final(m)) == index_entries(*old(m)).remove(i as int)),
        i >= index_entries(*old(m)).len() ==> r is None && index_entries(*final(m))
            == index_entries(*old(m)),
{
    m.shift_remove_index(i)
}

} // verus!
