//! The checksum-verified cache: wraps the bounded store, appends a CRC-32
//! checksum on write, verifies it on read, and self-heals by evicting any
//! entry that fails validation. Every failure short of construction is
//! absorbed into "treat as a miss": a cache may always behave as if empty.

use vstd::prelude::*;
use crate::checksum::{encode_entry, entry_bytes, stored_payload, valid_entry, validate_checksum};
use crate::store::{remove_key, seq_contains_key, value_of_key, BoundedStore};
use crate::CacheError;

verus! {

/// A byte cache whose stored entries each carry a trailing checksum. The
/// store underneath enforces the byte budget; this layer only adds the
/// 4 checksum bytes per entry and the corruption handling.
pub struct DiskBytesCache {
    /// The bounded store that keeps the entries. It stays reachable so that
    /// a caller can inspect raw entries or plant corrupt ones, the way bytes
    /// on a disk can rot underneath the cache.
    pub store: BoundedStore,
    /// The path this cache was rooted at when it was built.
    pub root: String,
}

impl DiskBytesCache {
    /// The cache's invariant: the store underneath is well formed.
    pub open spec fn wf(&self) -> bool {
        self.store.wf()
    }

    /// Looks up `k`. An absent key is a miss with no side effect. A present
    /// entry is validated: a valid one is returned with its 4 checksum bytes
    /// stripped; a corrupt one (undersized or mismatched checksum) is evicted
    /// on the spot and reported as a miss, so a later `get` of the same key
    /// misses as well.
    pub fn get(&mut self, k: &str) -> (r: Option<Vec<u8>>)
        requires
            old(self).wf(),
        ensures
            final(self).wf(),
            final(self).store.capacity() == old(self).store.capacity(),
            final(self).root == old(self).root,
            !seq_contains_key(old(self).store@, k@) ==> r is None && final(self).store@ == old(
                self,
            ).store@,
            seq_contains_key(old(self).store@, k@) && valid_entry(
                value_of_key(old(self).store@, k@),
            ) ==> final(self).store@ == old(self).store@ && r is Some && r->0@ == stored_payload(
                value_of_key(old(self).store@, k@),
            ),
            seq_contains_key(old(self).store@, k@) && !valid_entry(
                value_of_key(old(self).store@, k@),
            ) ==> r is None && final(self).store@ == remove_key(old(self).store@, k@)
                && !seq_contains_key(final(self).store@, k@),
            forall|k2: Seq<char>|
                k2 != k@ ==> seq_contains_key(final(self).store@, k2) == seq_contains_key(
                    old(self).store@,
                    k2,
                ),
            forall|k2: Seq<char>|
                k2 != k@ && seq_contains_key(old(self).store@, k2) ==> value_of_key(
                    final(self).store@,
                    k2,
                ) == value_of_key(old(self).store@, k2),
    {
        let raw = match self.store.get_bytes(k) {
            Some(bytes) => bytes,
            None => {
                return None;
            },
        };
        match validate_checksum(raw.as_slice()) {
            Ok(()) => {
                let mut bytes = raw;
                let n = bytes.len();
                bytes.truncate(n - 4);
                proof {
                    assert(bytes@ =~= stored_payload(value_of_key(old(self).store@, k@)));
                }
                Some(bytes)
            },
            Err(_reason) => {
                self.store.remove(k);
                None
            },
        }
    }

    /// Stores `v` under `k`: the payload followed by the little-endian CRC-32
    /// of the payload. A previous entry under `k` is replaced whole, and the
    /// store may evict its oldest entries to keep the byte budget. A payload
    /// whose entry cannot fit the budget at all is absorbed as a no-op: a
    /// missed write, never a torn entry.
    pub fn put(&mut self, k: &str, v: &[u8])
        requires
            old(self).wf(),
        ensures
            final(self).wf(),
            final(self).store.capacity() == old(self).store.capacity(),
            final(self).root == old(self).root,
            v@.len() + 4 <= old(self).store.capacity() ==> seq_contains_key(final(self).store@, k@)
                && value_of_key(final(self).store@, k@) == entry_bytes(v@),
            v@.len() + 4 <= old(self).store.capacity() ==> exists|i: int|
                0 <= i <= remove_key(old(self).store@, k@).len() && final(self).store@
                    == remove_key(old(self).store@, k@).skip(i).push((k@, entry_bytes(v@))),
            v@.len() + 4 > old(self).store.capacity() ==> final(self).store@ == old(self).store@,
            forall|k2: Seq<char>|
                k2 != k@ && seq_contains_key(final(self).store@, k2) ==> seq_contains_key(
                    old(self).store@,
                    k2,
                ) && value_of_key(final(self).store@, k2) == value_of_key(old(self).store@, k2),
    {
        let entry = encode_entry(v);
        proof {
            vstd::bytes::lemma_auto_spec_u32_to_from_le_bytes();
            assert(entry@.len() == v@.len() + 4);
        }
        let _stored = self.store.insert_bytes(k, entry);
    }

    /// Removes the entry under `k`, reporting whether one was there to
    /// remove. Evicting an absent key returns false and changes nothing, so
    /// a second eviction of the same key always returns false.
    pub fn evict(&mut self, k: &str) -> (r: bool)
        requires
            old(self).wf(),
        ensures
            final(self).wf(),
            final(self).store.capacity() == old(self).store.capacity(),
            final(self).root == old(self).root,
            r == seq_contains_key(old(self).store@, k@),
            final(self).store@ == remove_key(old(self).store@, k@),
            !r ==> final(self).store@ == old(self).store@,
            !seq_contains_key(final(self).store@, k@),
            forall|k2: Seq<char>|
                k2 != k@ ==> seq_contains_key(final(self).store@, k2) == seq_contains_key(
                    old(self).store@,
                    k2,
                ),
            forall|k2: Seq<char>|
                k2 != k@ && seq_contains_key(old(self).store@, k2) ==> value_of_key(
                    final(self).store@,
                    k2,
                ) == value_of_key(old(self).store@, k2),
    {
        self.store.remove(k)
    }
}

/// Builds checksum-verified caches over a bounded store.
pub struct DiskCacheBuilder;

impl DiskCacheBuilder {
    /// Opens a fresh cache rooted at `path` with the given byte budget. The
    /// store is kept in memory, so initialization cannot fail here; the
    /// result stays a `Result` because a store rooted on real storage may be
    /// unusable, and only construction is allowed to fail loudly.
    pub fn new_disk_cache(path: &str, capacity: u64) -> (r: Result<DiskBytesCache, CacheError>)
        ensures
            r matches Ok(c) ==> c.wf() && c.store@ == Seq::<(Seq<char>, Seq<u8>)>::empty()
                && c.store.capacity() == capacity && c.root@ == path@,
            r is Ok,
    {
        Ok(DiskBytesCache { store: BoundedStore::new(capacity), root: path.to_owned() })
    }
}

} // verus!
