//! The bounded witness cache, kept in lru's `LruCache` behind trusted
//! declarations: its contents are named as a map from key bytes to witness
//! views, its capacity as a number, and each method the orchestrator calls
//! has a contract over those names.

use vstd::prelude::*;
use crate::witness::{Witness, WitnessView};

verus! {

#[verifier::external_type_specification]
#[verifier::external_body]
#[verifier::reject_recursive_types(K)]
#[verifier::reject_recursive_types(V)]
#[verifier::reject_recursive_types(S)]
pub struct ExLruCache<K, V, S>(lru::LruCache<K, V, S>);

#[verifier::external_type_specification]
#[verifier::external_body]
pub struct ExDefaultHasher(lru::DefaultHasher);

/// The cache type the orchestrator keeps its witnesses in.
pub type WitnessCache = lru::LruCache<Vec<u8>, Witness>;

/// What the witness cache holds: a map from key bytes to witness views.
pub uninterp spec fn cache_contents(c: WitnessCache) -> Map<Seq<u8>, WitnessView>;

/// The capacity the witness cache was built with.
pub uninterp spec fn cache_capacity(c: WitnessCache) -> nat;

/// The contents of a cache holding nothing.
pub open spec fn empty_cache_view() -> Map<Seq<u8>, WitnessView> {
    Map::empty()
}

/// Relies on lru's `LruCache::new`: an empty cache holding at most `cap`
/// entries. The capacity is positive, so building the `NonZeroUsize`
/// cannot fail.
#[verifier::external_body]
pub fn cache_new(cap: usize) -> (r: WitnessCache)
    requires
        cap > 0,
    ensures
        cache_contents(r) == empty_cache_view(),
        cache_capacity(r) == cap,
{
    lru::LruCache::new(core::num::NonZeroUsize::new(cap).expect("capacity is positive"))
}

/// Relies on lru's `LruCache::put`: stores the pair as most recent. An
/// existing key is overwritten in place; a new key within capacity is
/// added; a new key at capacity first evicts the least-recently-used
/// entry — stated here only as: some present key leaves.
#[verifier::external_body]
pub fn cache_put(c: &mut WitnessCache, key: Vec<u8>, value: Witness)
    ensures
        cache_capacity(*final(c)) == cache_capacity(*old(c)),
        cache_contents(*final(c)).contains_pair(key@, value@),
        cache_contents(*old(c)).dom().contains(key@) ==> cache_contents(*final(c))
            == cache_contents(*old(c)).insert(key@, value@),
        !cache_contents(*old(c)).dom().contains(key@) && cache_contents(*old(c)).len()
            < cache_capacity(*old(c)) ==> cache_contents(*final(c)) == cache_contents(
            *old(c),
        ).insert(key@, value@),
        !cache_contents(*old(c)).dom().contains(key@) && cache_contents(*old(c)).len()
            >= cache_capacity(*old(c)) ==> (exists|evicted: Seq<u8>|
            cache_contents(*old(c)).dom().contains(evicted) && cache_contents(*final(c))
                == cache_contents(*old(c)).remove(evicted).insert(key@, value@)),
{
    c.put(key, value);
}

/// Relies on lru's `LruCache::get`: returns the entry stored under the
/// key, marking it most recent; the contents themselves do not change.
/// The returned witness is a field-wise copy of the stored one.
#[verifier::external_body]
pub fn cache_get(c: &mut WitnessCache, key: &[u8]) -> (r: Option<Witness>)
    ensures
        cache_contents(*final(c)) == cache_contents(*old(c)),
        cache_capacity(*final(c)) == cache_capacity(*old(c)),
        r matches Some(w) ==> cache_contents(*old(c)).contains_pair(key@, w@),
        r is None <==> !cache_contents(*old(c)).dom().contains(key@),
{
    c.get(key).cloned()
}

} // verus!
