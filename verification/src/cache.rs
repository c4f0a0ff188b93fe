//! Trusted wrappers around the bounded LRU caches that back the RAIDZ
//! layer: one for raw sectors and one for fully decoded logical blocks.
//!
//! The contracts state only what the cache crate's source shows: `get`
//! returns the value stored for a present key and leaves the contents
//! unchanged (only the recency order moves), and `put` inserts its pair
//! while evicting at most one other entry.

use vstd::prelude::*;

verus! {

#[verifier::external_type_specification]
#[verifier::external_body]
#[verifier::reject_recursive_types(K)]
#[verifier::reject_recursive_types(V)]
#[verifier::reject_recursive_types(S)]
pub struct ExLruCache<K, V, S>(lru::LruCache<K, V, S>);

/// The sector cache: sector index to raw sector bytes.
pub type SectorCache = lru::LruCache<u64, Vec<u8>>;

/// The block cache: (checksum, checksum-kind discriminant) to decoded block.
pub type BlockCache = lru::LruCache<([u64; 4], u8), Option<Vec<u8>>>;

/// What the sector cache holds: sector index to sector bytes.
pub uninterp spec fn sector_cache_view(c: SectorCache) -> Map<u64, Seq<u8>>;

/// What the block cache holds: (checksum, checksum-kind discriminant) to the
/// decoded block, or `None` for a block remembered as unreadable.
pub uninterp spec fn block_cache_view(c: BlockCache) -> Map<([u64; 4], u8), Option<Seq<u8>>>;

/// The view of an optional byte vector, as stored in the block cache.
pub open spec fn opt_bytes_view(v: Option<Vec<u8>>) -> Option<Seq<u8>> {
    match v {
        Some(b) => Some(b@),
        None => None,
    }
}

/// Relies on lru::LruCache::new: the cache starts empty.
#[verifier::external_body]
pub fn sector_cache_new(cap: usize) -> (cache: SectorCache)
    requires
        1 <= cap,
    ensures
        forall|k: u64| !sector_cache_view(cache).contains_key(k),
{
    lru::LruCache::new(core::num::NonZeroUsize::new(cap).unwrap())
}

/// Relies on lru::LruCache::clear: every entry is dropped.
#[verifier::external_body]
pub fn sector_cache_clear(c: &mut SectorCache)
    ensures
        forall|k: u64| !sector_cache_view(*final(c)).contains_key(k),
{
    c.clear();
}

/// Relies on lru::LruCache::get: a present key keeps its stored value and
/// the contents do not change (only the recency order does).
#[verifier::external_body]
pub fn sector_cache_get(c: &mut SectorCache, key: u64) -> (r: Option<Vec<u8>>)
    ensures
        sector_cache_view(*final(c)) == sector_cache_view(*old(c)),
        match r {
            Some(v) => sector_cache_view(*old(c)).contains_pair(key, v@),
            None => !sector_cache_view(*old(c)).contains_key(key),
        },
{
    c.get(&key).cloned()
}

/// Relies on lru::LruCache::put: the pair is stored, and every other
/// surviving entry was already present (at most the least recently used
/// entry is evicted).
#[verifier::external_body]
pub fn sector_cache_put(c: &mut SectorCache, key: u64, value: Vec<u8>)
    ensures
        sector_cache_view(*final(c)).contains_pair(key, value@),
        forall|k2: u64, v2: Seq<u8>|
            sector_cache_view(*final(c)).contains_pair(k2, v2) && k2 != key
                ==> sector_cache_view(*old(c)).contains_pair(k2, v2),
{
    c.put(key, value);
}

/// Relies on lru::LruCache::new: the cache starts empty.
#[verifier::external_body]
pub fn block_cache_new(cap: usize) -> (cache: BlockCache)
    requires
        1 <= cap,
    ensures
        forall|k: ([u64; 4], u8)| !block_cache_view(cache).contains_key(k),
{
    lru::LruCache::new(core::num::NonZeroUsize::new(cap).unwrap())
}

/// Relies on lru::LruCache::get: a present key keeps its stored value and
/// the contents do not change (only the recency order does).
#[verifier::external_body]
pub fn block_cache_get(c: &mut BlockCache, key: ([u64; 4], u8)) -> (r: Option<Option<Vec<u8>>>)
    ensures
        block_cache_view(*final(c)) == block_cache_view(*old(c)),
        match r {
            Some(v) => block_cache_view(*old(c)).contains_pair(key, opt_bytes_view(v)),
            None => !block_cache_view(*old(c)).contains_key(key),
        },
{
    c.get(&key).cloned()
}

/// Relies on lru::LruCache::put: the pair is stored, and every other
/// surviving entry was already present (at most the least recently used
/// entry is evicted).
#[verifier::external_body]
pub fn block_cache_put(c: &mut BlockCache, key: ([u64; 4], u8), value: Option<Vec<u8>>)
    ensures
        block_cache_view(*final(c)).contains_pair(key, opt_bytes_view(value)),
        forall|k2: ([u64; 4], u8), v2: Option<Seq<u8>>|
            block_cache_view(*final(c)).contains_pair(k2, v2) && k2 != key
                ==> block_cache_view(*old(c)).contains_pair(k2, v2),
{
    c.put(key, value);
}

} // verus!
