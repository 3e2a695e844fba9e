//! The tensor runtime as this library sees it: candle's tensors, devices and
//! errors carried through opaquely, and the per-layer caches built from them.

use vstd::prelude::*;

verus! {

#[verifier::external_type_specification]
#[verifier::external_body]
pub struct ExTensor(candle_core::Tensor);

#[verifier::external_type_specification]
#[verifier::external_body]
pub struct ExDevice(candle_core::Device);

#[verifier::external_type_specification]
#[verifier::external_body]
pub struct ExError(candle_core::Error);

/// Relies on the derived `Clone` of `candle_core::Tensor`, a newtype over an
/// `Arc`: the clone is a second handle on the same tensor.
pub assume_specification[ <candle_core::Tensor as Clone>::clone ](t: &candle_core::Tensor) -> (r: candle_core::Tensor)
    ensures
        r == *t,
;

/// Cached attention state of one layer: a key tensor and a value tensor, or
/// nothing for a layer that keeps no state.
pub type LayerCache = Option<(candle_core::Tensor, candle_core::Tensor)>;

/// Cached attention state of a whole model, one entry per layer in layer order.
pub type LayerCaches = Vec<LayerCache>;

/// No layer of the cache holds a tensor pair.
pub open spec fn holds_no_tensors(c: Seq<LayerCache>) -> bool {
    forall|j: int| 0 <= j < c.len() ==> #[trigger] c[j] is None
}

/// Which layers of a cache hold a tensor pair.
pub open spec fn layout(c: Seq<LayerCache>) -> Seq<bool> {
    c.map_values(|l: LayerCache| l is Some)
}

/// Relies on `candle_core::Tensor::to_device` with `Device::Cpu`: the tensor in
/// host memory, or the runtime's error. A tensor already in host memory comes
/// back as a second handle on itself; one elsewhere is copied. Nothing is
/// assumed of the result.
#[verifier::external_body]
fn tensor_to_host(t: &candle_core::Tensor) -> (r: Result<candle_core::Tensor, candle_core::Error>) {
    t.to_device(&candle_core::Device::Cpu)
}

/// A second handle on every tensor of `cache`; no tensor data is copied.
pub fn share_layers(cache: &LayerCaches) -> (r: LayerCaches)
    ensures
        r@ == cache@,
{
    let mut r: LayerCaches = Vec::new();
    let mut i: usize = 0;
    while i < cache.len()
        invariant
            i <= cache@.len(),
            r@ == cache@.take(i as int),
        decreases cache@.len() - i,
    {
        match &cache[i] {
            Some((q, k)) => r.push(Some((q.clone(), k.clone()))),
            None => r.push(None),
        }
        assert(cache@.take(i + 1) == cache@.take(i as int).push(cache@[i as int]));
        i = i + 1;
    }
    assert(cache@.take(cache@.len() as int) == cache@);
    r
}

/// Brings every tensor pair of `cache` into host memory, keeping empty layers
/// empty: a tensor already there is shared, any other is copied. Fails with
/// the first transfer error, returning no partial cache; a cache without
/// tensors needs no transfer and always succeeds.
pub fn layers_to_host(cache: &LayerCaches) -> (r: Result<LayerCaches, candle_core::Error>)
    ensures
        r matches Ok(c) ==> layout(c@) == layout(cache@),
        holds_no_tensors(cache@) ==> r is Ok,
{
    let mut r: LayerCaches = Vec::new();
    let mut i: usize = 0;
    while i < cache.len()
        invariant
            i <= cache@.len(),
            r@.len() == i,
            forall|j: int| 0 <= j < i ==> (r@[j] is Some) == (cache@[j] is Some),
        decreases cache@.len() - i,
    {
        match &cache[i] {
            Some((q, k)) => {
                let q_host = tensor_to_host(q)?;
                let k_host = tensor_to_host(k)?;
                r.push(Some((q_host, k_host)));
            },
            None => r.push(None),
        }
        i = i + 1;
    }
    assert(layout(r@) =~= layout(cache@));
    Ok(r)
}

} // verus!
