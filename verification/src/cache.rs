//! The cache of token counts: what it holds, in the order of last use.

use vstd::prelude::*;

verus! {

/// What a count is kept under: the length of the text in bytes and its digest.
pub type CacheKey = (usize, Seq<u8>);

/// A key and the count kept under it.
pub type CacheEntry = (CacheKey, usize);

/// Whether an entry has the key.
pub open spec fn has_key(entries: Seq<CacheEntry>, key: CacheKey) -> bool {
    exists|i: int| 0 <= i < entries.len() && (#[trigger] entries[i]).0 == key
}

/// Where the entry with the key stands.
pub open spec fn key_index(entries: Seq<CacheEntry>, key: CacheKey) -> int {
    choose|i: int| 0 <= i < entries.len() && (#[trigger] entries[i]).0 == key
}

/// The count kept under the key.
pub open spec fn cached_count(entries: Seq<CacheEntry>, key: CacheKey) -> usize {
    entries[key_index(entries, key)].1
}

/// No two entries have the same key.
pub open spec fn distinct_keys(entries: Seq<CacheEntry>) -> bool {
    forall|i: int, j: int|
        0 <= i < j < entries.len() ==> (#[trigger] entries[i]).0 != (#[trigger] entries[j]).0
}

/// The entries once the key was looked up: its entry comes first.
pub open spec fn touched(entries: Seq<CacheEntry>, key: CacheKey) -> Seq<CacheEntry> {
    if has_key(entries, key) {
        let i = key_index(entries, key);
        seq![entries[i]] + entries.remove(i)
    } else {
        entries
    }
}

/// The entries once a count was stored: it comes first, in place of the count
/// that was kept under its key, else, in a full cache, in place of the entry
/// that was used the longest time ago.
pub open spec fn stored(
    entries: Seq<CacheEntry>,
    capacity: nat,
    key: CacheKey,
    count: usize,
) -> Seq<CacheEntry> {
    if has_key(entries, key) {
        seq![(key, count)] + entries.remove(key_index(entries, key))
    } else if entries.len() == capacity {
        seq![(key, count)] + entries.drop_last()
    } else {
        seq![(key, count)] + entries
    }
}

/// `lru::LruCache`, a map that drops the entry used the longest time ago once it
/// is full.
#[verifier::external_type_specification]
#[verifier::external_body]
#[verifier::reject_recursive_types(K)]
#[verifier::reject_recursive_types(V)]
#[verifier::reject_recursive_types(S)]
pub struct ExLruCache<K, V, S>(lru::LruCache<K, V, S>);

/// `lru::DefaultHasher`, the hasher of a cache that was made without one.
#[verifier::external_type_specification]
#[verifier::external_body]
pub struct ExDefaultHasher(lru::DefaultHasher);

/// The entries of a cache, the last used first.
pub uninterp spec fn lru_entries(cache: lru::LruCache<(usize, [u8; 32]), usize>) -> Seq<((usize, Seq<u8>), usize)>;

/// How many entries a cache was made to hold.
pub uninterp spec fn lru_capacity(cache: lru::LruCache<(usize, [u8; 32]), usize>) -> nat;

/// `lru::LruCache::new`: an empty cache for so many entries. The room is
/// reserved at once, so the bound keeps the reservation within reach.
#[verifier::external_body]
pub(crate) fn lru_new(capacity: usize) -> (cache: lru::LruCache<(usize, [u8; 32]), usize>)
    requires
        0 < capacity <= 0x10_0000,
    ensures
        lru_entries(cache).len() == 0,
        lru_capacity(cache) == capacity,
{
    lru::LruCache::new(std::num::NonZeroUsize::new(capacity).unwrap())
}

/// `lru::LruCache::get`: the value under the key, whose entry then comes first;
/// without such an entry nothing changes.
#[verifier::external_body]
pub(crate) fn lru_get(cache: &mut lru::LruCache<(usize, [u8; 32]), usize>, key: &(usize, [u8; 32])) -> (res: Option<usize>)
    ensures
        res is Some <==> has_key(lru_entries(*old(cache)), (key.0, key.1@)),
        res is Some ==> res->0 == cached_count(lru_entries(*old(cache)), (key.0, key.1@)),
        lru_entries(*final(cache)) == touched(lru_entries(*old(cache)), (key.0, key.1@)),
        lru_capacity(*final(cache)) == lru_capacity(*old(cache)),
{
    cache.get(key).copied()
}

/// `lru::LruCache::put`: the value comes first, under its key; where the key is
/// new and the cache full, the last entry leaves.
#[verifier::external_body]
pub(crate) fn lru_put(cache: &mut lru::LruCache<(usize, [u8; 32]), usize>, key: (usize, [u8; 32]), value: usize)
    ensures
        lru_entries(*final(cache)) == stored(
            lru_entries(*old(cache)),
            lru_capacity(*old(cache)),
            (key.0, key.1@),
            value,
        ),
        lru_capacity(*final(cache)) == lru_capacity(*old(cache)),
{
    cache.put(key, value);
}

/// `lru::LruCache::contains`: whether the key has an entry; nothing changes.
#[verifier::external_body]
pub(crate) fn lru_contains(cache: &lru::LruCache<(usize, [u8; 32]), usize>, key: &(usize, [u8; 32])) -> (res: bool)
    ensures
        res == has_key(lru_entries(*cache), (key.0, key.1@)),
{
    cache.contains(key)
}

/// `lru::LruCache::clear`: no entry is left.
#[verifier::external_body]
pub(crate) fn lru_clear(cache: &mut lru::LruCache<(usize, [u8; 32]), usize>)
    ensures
        lru_entries(*final(cache)).len() == 0,
        lru_capacity(*final(cache)) == lru_capacity(*old(cache)),
{
    cache.clear();
}

/// `lru::LruCache::len`: how many entries there are.
#[verifier::external_body]
pub(crate) fn lru_len(cache: &lru::LruCache<(usize, [u8; 32]), usize>) -> (res: usize)
    ensures
        res == lru_entries(*cache).len(),
{
    cache.len()
}

/// With distinct keys the entry that a key names is the only one with that key.
pub proof fn key_index_unique(entries: Seq<CacheEntry>, i: int)
    requires
        distinct_keys(entries),
        0 <= i < entries.len(),
    ensures
        has_key(entries, entries[i].0),
        key_index(entries, entries[i].0) == i,
        cached_count(entries, entries[i].0) == entries[i].1,
{
    let key = entries[i].0;
    assert(has_key(entries, key));
    let j = key_index(entries, key);
    if i < j {
        assert(entries[i].0 != entries[j].0);
    } else if j < i {
        assert(entries[j].0 != entries[i].0);
    }
}

/// A look-up keeps the keys distinct and the entries the same but for their
/// order, and leaves the key it found in front.
pub proof fn touched_keeps(entries: Seq<CacheEntry>, key: CacheKey)
    requires
        distinct_keys(entries),
    ensures
        distinct_keys(touched(entries, key)),
        touched(entries, key).len() == entries.len(),
        touched(entries, key).to_multiset() == entries.to_multiset(),
        has_key(entries, key) ==> touched(entries, key)[0] == (key, cached_count(entries, key)),
{
    broadcast use vstd::seq_lib::group_to_multiset_ensures;

    if has_key(entries, key) {
        let i = key_index(entries, key);
        let rest = entries.remove(i);
        let t = touched(entries, key);
        assert forall|a: int, b: int| 0 <= a < b < t.len() implies (#[trigger] t[a]).0 != (#[trigger] t[b]).0 by {
            let x: int = if a == 0 { i } else if a - 1 < i { a - 1 } else { a };
            let y: int = if b - 1 < i { b - 1 } else { b };
            assert(t[a] == entries[x]);
            assert(t[b] == entries[y]);
            if x < y {
                assert(entries[x].0 != entries[y].0);
            } else {
                assert(entries[y].0 != entries[x].0);
            }
        }
        assert(entries.to_multiset() == rest.to_multiset().insert(entries[i]));
        assert(t =~= seq![entries[i]] + rest);
        vstd::seq_lib::lemma_multiset_commutative(seq![entries[i]], rest);
        assert(seq![entries[i]] =~= Seq::<CacheEntry>::empty().push(entries[i]));
        assert(t.to_multiset() =~= entries.to_multiset());
    }
}

/// A look-up of the key in front changes nothing.
pub proof fn touched_front(entries: Seq<CacheEntry>)
    requires
        distinct_keys(entries),
        entries.len() > 0,
    ensures
        touched(entries, entries[0].0) == entries,
{
    key_index_unique(entries, 0);
    assert(seq![entries[0]] + entries.remove(0) =~= entries);
}

/// Storing a count under a new key keeps the keys distinct and the cache within
/// its capacity, and leaves the new entry in front.
pub proof fn stored_keeps(entries: Seq<CacheEntry>, capacity: nat, key: CacheKey, count: usize)
    requires
        distinct_keys(entries),
        entries.len() <= capacity,
        0 < capacity,
        !has_key(entries, key),
    ensures
        distinct_keys(stored(entries, capacity, key, count)),
        stored(entries, capacity, key, count).len() == if entries.len() < capacity {
            entries.len() + 1
        } else {
            capacity
        },
        stored(entries, capacity, key, count)[0] == (key, count),
        forall|i: int|
            0 < i < stored(entries, capacity, key, count).len() ==> (#[trigger] stored(
                entries,
                capacity,
                key,
                count,
            )[i]) == entries[i - 1],
{
    let t = stored(entries, capacity, key, count);
    assert forall|a: int, b: int| 0 <= a < b < t.len() implies (#[trigger] t[a]).0 != (#[trigger] t[b]).0 by {
        assert(t[b] == entries[b - 1]);
        if a == 0 {
            assert(entries[b - 1].0 != key);
        } else {
            assert(t[a] == entries[a - 1]);
        }
    }
}

} // verus!
