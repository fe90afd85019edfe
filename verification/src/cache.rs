use vstd::prelude::*;
use crate::path::{FsPath, PathModel, key_of};

verus! {

/// The bounded, least-recently-used map of the `lru` crate; a cache holds
/// the resolved paths in one, keyed by folded path bytes.
#[verifier::external_type_specification]
#[verifier::external_body]
#[verifier::reject_recursive_types(K)]
#[verifier::reject_recursive_types(V)]
#[verifier::reject_recursive_types(S)]
pub struct ExLruCache<K, V, S>(lru::LruCache<K, V, S>);

/// The hasher an `lru::LruCache` uses when none is named.
#[verifier::external_type_specification]
#[verifier::external_body]
pub struct ExDefaultHasher(lru::DefaultHasher);

/// A bounded cache from the case-folded form of a path to the last exact,
/// case-correct path verified for it, with least-recently-used eviction.
///
/// The cache itself never touches a disk. A caller that wants a validated
/// entry calls `get`, checks whether the returned path still exists, and on
/// failure calls `drop_stale` so the dead entry is never served again.
pub struct Cache {
    lru: lru::LruCache<Vec<u8>, FsPath>,
}

/// What the cache's inner `lru::LruCache` holds: each present key mapped to
/// the path value stored under it. Recency order is not modelled; which
/// entry an overfull insertion evicts is left open.
pub uninterp spec fn cache_map(c: Cache) -> Map<Seq<u8>, PathModel>;

/// The fixed capacity the cache's inner `lru::LruCache` was created with.
pub uninterp spec fn cache_cap(c: Cache) -> nat;

impl View for Cache {
    type V = Map<Seq<u8>, PathModel>;

    open spec fn view(&self) -> Map<Seq<u8>, PathModel> {
        cache_map(*self)
    }
}

/// How `LruCache::put` changes the held entries: the new pair is present,
/// nothing else appears; an existing key is replaced in place, a new key
/// under capacity is added, and a new key at capacity displaces exactly one
/// present entry, which one being left open.
pub open spec fn put_rel(
    pre: Map<Seq<u8>, PathModel>,
    post: Map<Seq<u8>, PathModel>,
    k: Seq<u8>,
    v: PathModel,
    cap: nat,
) -> bool {
    &&& post.contains_pair(k, v)
    &&& forall|k2: Seq<u8>|
        k2 != k && post.dom().contains(k2) ==> pre.dom().contains(k2) && post[k2] == pre[k2]
    &&& (pre.dom().contains(k) ==> post == pre.insert(k, v))
    &&& (!pre.dom().contains(k) && pre.dom().len() < cap ==> post == pre.insert(k, v))
    &&& (!pre.dom().contains(k) && pre.dom().len() >= cap ==> exists|e: Seq<u8>|
        pre.dom().contains(e) && e != k && post == pre.remove(e).insert(k, v))
}

/// Relies on lru::LruCache::new: an empty cache with the given capacity.
/// The capacity must be nonzero (`NonZeroUsize`).
#[verifier::external_body]
fn raw_new(cap: usize) -> (c: Cache)
    requires
        cap >= 1,
    ensures
        cache_cap(c) == cap,
        cache_map(c).dom().finite(),
        forall|k: Seq<u8>| !cache_map(c).dom().contains(k),
{
    Cache { lru: lru::LruCache::new(core::num::NonZeroUsize::new(cap).unwrap()) }
}

/// Relies on lru::LruCache::put: it stores the value under the key,
/// replacing the value of a key already present, and when a new key would
/// exceed the capacity it first removes the least-recently-used entry.
#[verifier::external_body]
fn raw_put(c: &mut Cache, k: Vec<u8>, v: FsPath)
    ensures
        cache_cap(*final(c)) == cache_cap(*old(c)),
        cache_map(*final(c)).dom().finite(),
        put_rel(cache_map(*old(c)), cache_map(*final(c)), k@, v@, cache_cap(*old(c))),
{
    let _ = c.lru.put(k, v);
}

/// Relies on lru::LruCache::get: it returns the value stored under the key,
/// or nothing when the key is absent; it only refreshes recency, leaving the
/// held entries unchanged.
#[verifier::external_body]
fn raw_get(c: &mut Cache, k: &Vec<u8>) -> (r: Option<FsPath>)
    ensures
        cache_cap(*final(c)) == cache_cap(*old(c)),
        cache_map(*final(c)) == cache_map(*old(c)),
        match r {
            Some(v) => cache_map(*final(c)).contains_pair(k@, v@),
            None => !cache_map(*final(c)).dom().contains(k@),
        },
{
    c.lru.get(k).cloned()
}

/// Relies on lru::LruCache::pop: it removes the entry stored under the key,
/// if any, and changes nothing else.
#[verifier::external_body]
fn raw_pop(c: &mut Cache, k: &Vec<u8>)
    ensures
        cache_cap(*final(c)) == cache_cap(*old(c)),
        cache_map(*final(c)) == cache_map(*old(c)).remove(k@),
        cache_map(*final(c)).dom().finite(),
{
    let _ = c.lru.pop(k);
}

impl Cache {
    /// The capacity the cache was created with.
    pub open spec fn cap(self) -> nat {
        cache_cap(self)
    }

    /// The cache is bounded by its capacity, and every key held is derived
    /// from its value by the pure fold: a stored path always folds back to
    /// the key it is stored under, so a corrupt entry cannot exist.
    pub open spec fn wf(self) -> bool {
        &&& self.cap() >= 1
        &&& self@.dom().finite()
        &&& self@.dom().len() <= self.cap()
        &&& forall|k: Seq<u8>| #[trigger]
            self@.dom().contains(k) ==> k == key_of(self@[k])
    }

    /// An empty cache holding at most `size` entries.
    pub fn new(size: usize) -> (c: Cache)
        requires
            size >= 1,
        ensures
            c.wf(),
            c@ == Map::<Seq<u8>, PathModel>::empty(),
            c.cap() == size,
    {
        let c = raw_new(size);
        proof {
            assert(c@.dom() =~= Set::<Seq<u8>>::empty());
            assert(c@ =~= Map::<Seq<u8>, PathModel>::empty());
        }
        c
    }

    /// Store `path` under its folded key, evicting the least-recently-used
    /// entry if the cache is full.
    pub fn insert(&mut self, path: &FsPath)
        requires
            old(self).wf(),
        ensures
            final(self).wf(),
            final(self).cap() == old(self).cap(),
            put_rel(old(self)@, final(self)@, key_of(path@), path@, old(self).cap()),
    {
        let k = path.fold_key();
        let v = path.duplicate();
        let ghost pre = self@;
        let ghost cap = self.cap();
        raw_put(self, k, v);
        proof {
            let post = self@;
            assert forall|k2: Seq<u8>| #[trigger]
                post.dom().contains(k2) implies k2 == key_of(post[k2]) by {
                if k2 == key_of(path@) {
                    assert(post.contains_pair(key_of(path@), path@));
                } else {
                    assert(pre.dom().contains(k2) && post[k2] == pre[k2]);
                }
            }
            if pre.dom().contains(key_of(path@)) {
                assert(post.dom() =~= pre.dom());
            } else if pre.dom().len() < cap {
                assert(post.dom() =~= pre.dom().insert(key_of(path@)));
            } else {
                let e = choose|e: Seq<u8>|
                    pre.dom().contains(e) && e != key_of(path@) && post == pre.remove(e).insert(
                        key_of(path@),
                        path@,
                    );
                assert(post.dom() =~= pre.dom().remove(e).insert(key_of(path@)));
            }
        }
    }

    /// The entry stored under the folded key of `path`, if any. The entry's
    /// recency is refreshed; the held entries do not change. A returned path
    /// folds to the same key as the queried one.
    pub fn get(&mut self, path: &FsPath) -> (r: Option<FsPath>)
        requires
            old(self).wf(),
        ensures
            final(self).wf(),
            final(self).cap() == old(self).cap(),
            final(self)@ == old(self)@,
            match r {
                Some(p) => final(self)@.contains_pair(key_of(path@), p@) && key_of(p@) == key_of(
                    path@,
                ),
                None => !final(self)@.dom().contains(key_of(path@)),
            },
    {
        let k = path.fold_key();
        let r = raw_get(self, &k);
        proof {
            if r is Some {
                assert(self@.dom().contains(key_of(path@)));
            }
        }
        r
    }

    /// Remove the entry stored under the folded key of `path`; the caller
    /// found that the stored path no longer exists.
    pub fn drop_stale(&mut self, path: &FsPath)
        requires
            old(self).wf(),
        ensures
            final(self).wf(),
            final(self).cap() == old(self).cap(),
            final(self)@ == old(self)@.remove(key_of(path@)),
    {
        let k = path.fold_key();
        let ghost pre = self@;
        raw_pop(self, &k);
        proof {
            if pre.dom().contains(key_of(path@)) {
                assert(self@.dom() =~= pre.dom().remove(key_of(path@)));
            } else {
                assert(self@.dom() =~= pre.dom());
            }
        }
    }
}

/// A dropped entry is gone: after the entry for a path is removed, a lookup
/// of any path with the same folded key finds nothing, until something is
/// inserted again. This is how a stale entry, once detected, stays dead.
pub proof fn lemma_stale_entry_gone(pre: Map<Seq<u8>, PathModel>, p: PathModel, q: PathModel)
    requires
        key_of(q) == key_of(p),
    ensures
        !pre.remove(key_of(p)).dom().contains(key_of(q)),
{
}

} // verus!
