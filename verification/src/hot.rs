//! The in-memory hot cache: an `lru::LruCache` from cache keys to image bytes.
use vstd::prelude::*;
use lru::LruCache;
use std::num::NonZeroUsize;

verus! {

/// The `lru` crate's least-recently-used cache.
#[verifier::external_type_specification]
#[verifier::external_body]
#[verifier::reject_recursive_types(K)]
#[verifier::reject_recursive_types(V)]
#[verifier::reject_recursive_types(S)]
pub struct ExLruCache<K, V, S>(LruCache<K, V, S>);

/// The hasher the `lru` crate builds its maps with by default.
#[verifier::external_type_specification]
#[verifier::external_body]
pub struct ExLruDefaultHasher(lru::DefaultHasher);

/// The entries a hot cache holds, by key.
pub uninterp spec fn hot_contents(c: LruCache<String, Vec<u8>>) -> Map<Seq<char>, Seq<u8>>;

/// The number of entries a hot cache holds at most.
pub uninterp spec fn hot_capacity(c: LruCache<String, Vec<u8>>) -> nat;

/// The contents of an empty hot cache.
pub open spec fn no_entries() -> Map<Seq<char>, Seq<u8>> {
    Map::empty()
}

/// `LruCache::new`: an empty cache that holds at most `cap` entries.
#[verifier::external_body]
pub fn hot_new(cap: usize) -> (c: LruCache<String, Vec<u8>>)
    requires
        cap > 0,
    ensures
        hot_contents(c) == no_entries(),
        hot_capacity(c) == cap,
{
    LruCache::new(NonZeroUsize::new(cap).unwrap())
}

/// `LruCache::get`: the value under `key`, if any, cloned. The lookup marks the
/// entry most recently used, which changes the order only, not the contents.
#[verifier::external_body]
pub fn hot_get(c: &mut LruCache<String, Vec<u8>>, key: &str) -> (r: Option<Vec<u8>>)
    ensures
        hot_contents(*final(c)) == hot_contents(*old(c)),
        hot_capacity(*final(c)) == hot_capacity(*old(c)),
        match r {
            Some(v) => hot_contents(*old(c)).contains_key(key@) && v@ == hot_contents(*old(c))[key@],
            None => !hot_contents(*old(c)).contains_key(key@),
        },
{
    c.get(key).cloned()
}

/// `LruCache::put`: stores `value` under `key`. A new key in a full cache pushes
/// out the least recently used entry; which one that is the contents do not say.
#[verifier::external_body]
pub fn hot_put(c: &mut LruCache<String, Vec<u8>>, key: String, value: Vec<u8>)
    ensures
        hot_capacity(*final(c)) == hot_capacity(*old(c)),
        hot_contents(*final(c)).contains_key(key@),
        hot_contents(*final(c))[key@] == value@,
        forall|k: Seq<char>| #[trigger] hot_contents(*final(c)).contains_key(k) && k != key@
            ==> hot_contents(*old(c)).contains_key(k) && hot_contents(*final(c))[k] == hot_contents(*old(c))[k],
        hot_contents(*old(c)).contains_key(key@) || hot_contents(*old(c)).dom().len() < hot_capacity(*old(c))
            ==> hot_contents(*final(c)) == hot_contents(*old(c)).insert(key@, value@),
{
    c.put(key, value);
}

/// `LruCache::pop`: removes the entry under `key`, if any.
#[verifier::external_body]
pub fn hot_pop(c: &mut LruCache<String, Vec<u8>>, key: &str)
    ensures
        hot_capacity(*final(c)) == hot_capacity(*old(c)),
        hot_contents(*final(c)) == hot_contents(*old(c)).remove(key@),
{
    c.pop(key);
}

/// `LruCache::clear`: removes every entry.
#[verifier::external_body]
pub fn hot_clear(c: &mut LruCache<String, Vec<u8>>)
    ensures
        hot_capacity(*final(c)) == hot_capacity(*old(c)),
        hot_contents(*final(c)) == no_entries(),
{
    c.clear();
}

/// `LruCache::clone`: a cache of the same capacity holding the same entries, in
/// the same recency order.
#[verifier::external_body]
pub fn hot_clone(c: &LruCache<String, Vec<u8>>) -> (r: LruCache<String, Vec<u8>>)
    ensures
        hot_contents(r) == hot_contents(*c),
        hot_capacity(r) == hot_capacity(*c),
{
    c.clone()
}

} // verus!
