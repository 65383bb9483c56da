use disk_cache::cache::{DiskBytesCache, DiskCacheBuilder};
use disk_cache::accessor::CacheAccessor;
use disk_cache::CacheError;

fn new_cache(capacity: u64) -> DiskBytesCache {
    DiskCacheBuilder::new_disk_cache("cache-root", capacity).unwrap()
}

#[test]
fn builder_succeeds_and_records_root() {
    let cache = new_cache(64);
    assert_eq!(cache.root, "cache-root");
}

#[test]
fn round_trip_returns_payload() {
    let mut cache = new_cache(100);
    let payload = vec![1u8, 2, 3, 4, 5];
    cache.put("k", &payload);
    assert_eq!(cache.get("k"), Some(payload));
}

#[test]
fn round_trip_single_byte() {
    let mut cache = new_cache(100);
    cache.put("b", &[0u8]);
    assert_eq!(cache.get("b"), Some(vec![0u8]));
}

#[test]
fn empty_payload_reads_back_as_miss() {
    // A zero-length payload stores as a bare 4-byte checksum, which
    // validation rejects as undersized: never a valid zero-length payload.
    let mut cache = new_cache(100);
    cache.put("e", &[]);
    assert_eq!(cache.get("e"), None);
}

#[test]
fn miss_on_absent_key() {
    let mut cache = new_cache(100);
    assert_eq!(cache.get("nope"), None);
}

#[test]
fn stored_entry_is_payload_then_le_crc() {
    let mut cache = new_cache(100);
    let payload = vec![7u8, 8, 9];
    cache.put("k", &payload);
    let raw = cache.store.get_bytes("k").unwrap();
    let mut expected = payload.clone();
    expected.extend_from_slice(&crc32fast::hash(&payload).to_le_bytes());
    assert_eq!(raw, expected);
}

#[test]
fn flipping_any_single_bit_corrupts_the_entry() {
    let payload = vec![10u8, 20, 30, 40, 50, 60, 70, 80];
    let mut cache = new_cache(100);
    cache.put("k", &payload);
    let raw = cache.store.get_bytes("k").unwrap();
    for byte in 0..raw.len() {
        for bit in 0..8 {
            let mut cache = new_cache(100);
            let mut corrupt = raw.clone();
            corrupt[byte] ^= 1u8 << bit;
            assert!(cache.store.insert_bytes("k", corrupt));
            // The corrupt entry is reported as a miss and self-healed...
            assert_eq!(cache.get("k"), None);
            // ...so the next get misses as well, with nothing stale.
            assert_eq!(cache.get("k"), None);
            assert!(cache.store.get_bytes("k").is_none());
        }
    }
}

#[test]
fn undersized_entries_are_rejected() {
    for len in 0..5usize {
        let mut cache = new_cache(100);
        assert!(cache.store.insert_bytes("k", vec![0u8; len]));
        assert_eq!(cache.get("k"), None);
        assert_eq!(cache.get("k"), None);
        assert!(cache.store.get_bytes("k").is_none());
    }
}

#[test]
fn validate_checksum_reports_each_error() {
    assert_eq!(
        disk_cache::checksum::validate_checksum(&[]),
        Err(CacheError::UndersizedEntry)
    );
    assert_eq!(
        disk_cache::checksum::validate_checksum(&[1, 2, 3, 4]),
        Err(CacheError::UndersizedEntry)
    );
    let mut entry = vec![1u8, 2, 3];
    entry.extend_from_slice(&crc32fast::hash(&[1u8, 2, 3]).to_le_bytes());
    assert_eq!(disk_cache::checksum::validate_checksum(&entry), Ok(()));
    entry[0] ^= 0x01;
    assert_eq!(
        disk_cache::checksum::validate_checksum(&entry),
        Err(CacheError::ChecksumMismatch)
    );
}

#[test]
fn encode_entry_appends_the_checksum() {
    let encoded = disk_cache::checksum::encode_entry(&[9u8, 9, 9]);
    assert_eq!(&encoded[..3], &[9u8, 9, 9]);
    assert_eq!(&encoded[3..], &crc32fast::hash(&[9u8, 9, 9]).to_le_bytes());
}

#[test]
fn evict_absent_key_returns_false() {
    let mut cache = new_cache(100);
    assert!(!cache.evict("ghost"));
    assert_eq!(cache.get("ghost"), None);
}

#[test]
fn evict_twice_returns_true_then_false() {
    let mut cache = new_cache(100);
    cache.put("k", &[1u8, 2, 3]);
    assert!(cache.evict("k"));
    assert!(!cache.evict("k"));
    assert_eq!(cache.get("k"), None);
}

#[test]
fn evict_leaves_other_entries_alone() {
    let mut cache = new_cache(100);
    cache.put("a", &[1u8]);
    cache.put("b", &[2u8]);
    assert!(cache.evict("a"));
    assert_eq!(cache.get("b"), Some(vec![2u8]));
}

#[test]
fn overwrite_returns_latest_value() {
    let mut cache = new_cache(100);
    cache.put("k", &[1u8, 1, 1]);
    cache.put("k", &[2u8, 2]);
    assert_eq!(cache.get("k"), Some(vec![2u8, 2]));
}

#[test]
fn oversized_payload_is_absorbed_as_missed_write() {
    let mut cache = new_cache(10);
    // 8 payload bytes + 4 checksum bytes exceed the 10-byte budget.
    cache.put("big", &[0u8; 8]);
    assert_eq!(cache.get("big"), None);
    // An earlier entry survives the missed write untouched.
    cache.put("small", &[5u8]);
    cache.put("big", &[0u8; 8]);
    assert_eq!(cache.get("small"), Some(vec![5u8]));
}

#[test]
fn capacity_sixteen_keeps_exactly_one_of_two_entries() {
    let mut cache = new_cache(16);
    let first = vec![1u8, 2, 3, 4, 5, 6, 7, 8];
    let second = vec![9u8, 10, 11, 12, 13, 14, 15, 16];
    cache.put("a", &first);
    cache.put("b", &second);
    let got_a = cache.get("a");
    let got_b = cache.get("b");
    // 12 stored bytes each against a 16-byte budget: exactly one survives,
    // and the survivor round-trips exactly.
    assert!(got_a.is_none() != got_b.is_none());
    if let Some(a) = got_a {
        assert_eq!(a, first);
    }
    if let Some(b) = got_b {
        assert_eq!(b, second);
    }
}

#[test]
fn capacity_pressure_evicts_oldest_first() {
    // Each entry stores 12 bytes; a 40-byte budget holds three of them.
    let mut cache = new_cache(40);
    let keys = ["k0", "k1", "k2", "k3", "k4"];
    for (i, key) in keys.iter().enumerate() {
        cache.put(key, &[i as u8; 8]);
    }
    assert_eq!(cache.get("k0"), None);
    assert_eq!(cache.get("k1"), None);
    assert_eq!(cache.get("k2"), Some(vec![2u8; 8]));
    assert_eq!(cache.get("k3"), Some(vec![3u8; 8]));
    assert_eq!(cache.get("k4"), Some(vec![4u8; 8]));
}

#[test]
fn overwrite_under_pressure_keeps_single_entry_per_key() {
    let mut cache = new_cache(24);
    cache.put("k", &[1u8; 8]);
    cache.put("k", &[2u8; 8]);
    // Both writes fit the budget only because the second replaced the first.
    assert_eq!(cache.get("k"), Some(vec![2u8; 8]));
    cache.put("other", &[3u8; 8]);
    assert_eq!(cache.get("k"), Some(vec![2u8; 8]));
    assert_eq!(cache.get("other"), Some(vec![3u8; 8]));
}

#[test]
fn store_rejects_value_over_budget_unchanged() {
    let mut store = disk_cache::store::BoundedStore::new(4);
    assert!(store.insert_bytes("a", vec![1u8, 2]));
    assert!(!store.insert_bytes("b", vec![0u8; 5]));
    assert_eq!(store.get_bytes("a"), Some(vec![1u8, 2]));
    assert!(store.get_bytes("b").is_none());
}

#[test]
fn store_remove_reports_presence() {
    let mut store = disk_cache::store::BoundedStore::new(16);
    assert!(!store.remove("a"));
    assert!(store.insert_bytes("a", vec![1u8]));
    assert!(store.remove("a"));
    assert!(!store.remove("a"));
}

#[test]
fn accessor_contract_round_trips() {
    let mut cache = new_cache(100);
    CacheAccessor::put(&mut cache, "k", &[4u8, 2]);
    assert_eq!(CacheAccessor::get(&mut cache, "k"), Some(vec![4u8, 2]));
    assert!(CacheAccessor::evict(&mut cache, "k"));
    assert_eq!(CacheAccessor::get(&mut cache, "k"), None);
}
