//! The set of business events already applied, kept by a `ttl_cache::TtlCache`.
//!
//! The cache drops a marker when it is told to, when it is full, and when the
//! marker is older than its time to live. Only the clock decides the last, so
//! nothing here says that a marker is still found: what is stated is which
//! markers the cache may hold.

use crate::controller::MARKER_TTL_SECS;
use std::hash::{BuildHasher, Hash};
use std::time::Duration;
use ttl_cache::TtlCache;
use vstd::prelude::*;

verus! {

/// `ttl_cache::TtlCache`, of which nothing is seen but through the functions
/// below.
#[verifier::external_type_specification]
#[verifier::external_body]
#[verifier::reject_recursive_types(K)]
#[verifier::reject_recursive_types(V)]
#[verifier::reject_recursive_types(S)]
pub struct ExTtlCache<K: Eq + Hash, V, S: BuildHasher>(TtlCache<K, V, S>);

/// The keys that the cache holds, expired or not.
pub uninterp spec fn markers(cache: TtlCache<(u32, String, String, u64), bool>) -> Set<
    (u32, Seq<char>, Seq<char>, u64),
>;

/// The number of entries that the cache was made to hold.
pub uninterp spec fn marker_limit(cache: TtlCache<(u32, String, String, u64), bool>) -> nat;

/// A key as the contracts speak of it.
pub open spec fn key_view(key: (u32, String, String, u64)) -> (u32, Seq<char>, Seq<char>, u64) {
    (key.0, key.1@, key.2@, key.3)
}

/// `TtlCache::new`. Claimed: the cache is empty and keeps the capacity given.
#[verifier::external_body]
pub(crate) fn cache_new(capacity: usize) -> (r: TtlCache<(u32, String, String, u64), bool>)
    ensures
        markers(r) == Set::<(u32, Seq<char>, Seq<char>, u64)>::empty(),
        marker_limit(r) == capacity,
{
    TtlCache::new(capacity)
}

/// `TtlCache::contains_key`. Claimed: a key that is found is held. A key that
/// is held may not be found, once its time has run out.
#[verifier::external_body]
pub(crate) fn cache_contains(
    cache: &TtlCache<(u32, String, String, u64), bool>,
    key: &(u32, String, String, u64),
) -> (r: bool)
    ensures
        r ==> markers(*cache).contains(key_view(*key)),
{
    cache.contains_key(key)
}

/// `TtlCache::insert`, with a time to live of `ttl_secs` seconds, which is
/// asked to be the one that every marker gets: an hour. Claimed: a cache made
/// for at least one entry holds the key afterwards; it holds no key that it
/// did not hold before, but for this one; its capacity stays. What it dropped
/// to make room is not said.
#[verifier::external_body]
pub(crate) fn cache_insert(
    cache: &mut TtlCache<(u32, String, String, u64), bool>,
    key: (u32, String, String, u64),
    value: bool,
    ttl_secs: u64,
)
    requires
        ttl_secs == MARKER_TTL_SECS,
    ensures
        marker_limit(*final(cache)) == marker_limit(*old(cache)),
        marker_limit(*old(cache)) >= 1 ==> markers(*final(cache)).contains(key_view(key)),
        markers(*final(cache)).subset_of(markers(*old(cache)).insert(key_view(key))),
{
    cache.insert(key, value, Duration::from_secs(ttl_secs));
}

/// `TtlCache::clear`. Claimed: the cache is empty afterwards and keeps its
/// capacity.
#[verifier::external_body]
pub(crate) fn cache_clear(cache: &mut TtlCache<(u32, String, String, u64), bool>)
    ensures
        markers(*final(cache)) == Set::<(u32, Seq<char>, Seq<char>, u64)>::empty(),
        marker_limit(*final(cache)) == marker_limit(*old(cache)),
{
    cache.clear();
}

} // verus!
