//! A two-tier cache of per-layer attention state, keyed by the exact token
//! sequence that produced it. Entries live on the compute device until an
//! explicit eviction pass moves the oldest of them to host memory.

pub mod eviction;
pub mod index;
pub mod prefix_cacher;
pub mod tensor;
pub mod tier;

pub use prefix_cacher::{PrefixCacheError, PrefixCacheManager};
pub use tensor::{LayerCache, LayerCaches};
