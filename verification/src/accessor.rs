//! The generic cache-accessor contract: the capability set {get, put, evict}
//! that any cache of bytes keyed by strings satisfies, stated over the map
//! of payloads a `get` would currently return. Callers depend on this
//! contract alone, without knowing how a cache keeps its entries.

use vstd::prelude::*;
use crate::cache::DiskBytesCache;
use crate::checksum::{entry_bytes, lemma_entry_round_trip, stored_payload, valid_entry};
use crate::store::{seq_contains_key, value_of_key, StoreView};

verus! {

/// The payloads a cache over store contents `s` would hand out: each key
/// whose stored entry validates, mapped to that entry without its trailing
/// checksum bytes. Corrupt entries are absent here: corruption is never
/// visible to a caller, only a miss is.
pub open spec fn cached_of(s: StoreView) -> Map<Seq<char>, Seq<u8>> {
    Map::new(
        |k: Seq<char>| seq_contains_key(s, k) && valid_entry(value_of_key(s, k)),
        |k: Seq<char>| stored_payload(value_of_key(s, k)),
    )
}

/// Round trip of the cache: a store that keeps the encoded entry for a
/// non-empty payload `v` under `k` hands exactly `v` back out for `k`. A
/// zero-length payload is the one exception: its 4-byte entry is rejected
/// as undersized, so it reads back as a miss.
pub proof fn lemma_round_trip(s: StoreView, k: Seq<char>, v: Seq<u8>)
    requires
        seq_contains_key(s, k),
        value_of_key(s, k) == entry_bytes(v),
        v.len() > 0,
    ensures
        cached_of(s).contains_key(k),
        cached_of(s)[k] == v,
{
    lemma_entry_round_trip(v);
}

/// Corruption is never visible to a caller: a key whose stored entry fails
/// validation is not among the payloads the cache hands out, so a `get` for
/// it can only miss — and `get` itself evicts such an entry, so the next
/// `get` misses too.
pub proof fn lemma_corrupt_entry_invisible(s: StoreView, k: Seq<char>)
    requires
        !valid_entry(value_of_key(s, k)),
    ensures
        !cached_of(s).contains_key(k),
{
}

/// What every cache implementation promises of {get, put, evict},
/// whether it keeps its entries in memory, on disk, or elsewhere.
pub trait CacheAccessor {
    /// The logical contents: each key with the payload a `get` would return.
    spec fn cached(&self) -> Map<Seq<char>, Seq<u8>>;

    /// The implementation's own well-formedness condition.
    spec fn accessor_inv(&self) -> bool;

    /// A hit returns the cached payload; a miss has no visible effect. The
    /// logical contents never change on a read, even where the
    /// implementation heals itself underneath.
    fn get(&mut self, k: &str) -> (r: Option<Vec<u8>>)
        requires
            old(self).accessor_inv(),
        ensures
            final(self).accessor_inv(),
            r is Some <==> old(self).cached().contains_key(k@),
            r is Some ==> r->0@ == old(self).cached()[k@],
            final(self).cached() == old(self).cached(),
    ;

    /// Inserts or overwrites. A write failure is absorbed, never surfaced:
    /// afterwards `k` holds the new payload or, at worst, whatever it held
    /// before — a missed write, never a torn one. Other keys keep their
    /// payloads, though the implementation may evict some to make room.
    fn put(&mut self, k: &str, v: &[u8])
        requires
            old(self).accessor_inv(),
        ensures
            final(self).accessor_inv(),
            final(self).cached().contains_key(k@) ==> final(self).cached()[k@] == v@ || (old(
                self,
            ).cached().contains_key(k@) && final(self).cached()[k@] == old(self).cached()[k@]),
            forall|k2: Seq<char>|
                k2 != k@ && final(self).cached().contains_key(k2) ==> old(
                    self,
                ).cached().contains_key(k2) && final(self).cached()[k2] == old(self).cached()[k2],
    ;

    /// Removes the entry under `k` if one is present and confirms whether
    /// a removal happened; afterwards `k` is absent either way.
    fn evict(&mut self, k: &str) -> (r: bool)
        requires
            old(self).accessor_inv(),
        ensures
            final(self).accessor_inv(),
            final(self).cached() == old(self).cached().remove(k@),
            old(self).cached().contains_key(k@) ==> r,
    ;
}

impl CacheAccessor for DiskBytesCache {
    open spec fn cached(&self) -> Map<Seq<char>, Seq<u8>> {
        cached_of(self.store@)
    }

    open spec fn accessor_inv(&self) -> bool {
        self.wf()
    }

    fn get(&mut self, k: &str) -> (r: Option<Vec<u8>>) {
        let r = DiskBytesCache::get(self, k);
        proof {
            assert(cached_of(self.store@) =~= cached_of(old(self).store@));
        }
        r
    }

    fn put(&mut self, k: &str, v: &[u8]) {
        DiskBytesCache::put(self, k, v);
        proof {
            vstd::bytes::lemma_auto_spec_u32_to_from_le_bytes();
            if v@.len() > 0 {
                lemma_entry_round_trip(v@);
            }
        }
    }

    fn evict(&mut self, k: &str) -> (r: bool) {
        let r = DiskBytesCache::evict(self, k);
        proof {
            assert(cached_of(self.store@) =~= cached_of(old(self).store@).remove(k@));
        }
        r
    }
}

} // verus!
