//! A checksum-verified, capacity-bounded byte cache.
//!
//! The cache stores opaque byte payloads under string keys on top of a
//! bounded store that evicts old entries to honour a byte budget. Every
//! stored entry carries a trailing CRC-32 checksum; a read verifies the
//! checksum and treats any corrupt entry as absent, evicting it on the spot.

use vstd::prelude::*;

pub mod accessor;
pub mod cache;
pub mod checksum;
pub mod store;

verus! {

/// Why a stored entry was rejected during checksum validation.
#[derive(Clone, Copy, PartialEq, Eq, Structural, Debug)]
pub enum CacheError {
    /// The stored entry has 4 bytes or fewer: too short to hold both a
    /// payload and a trailing checksum.
    UndersizedEntry,
    /// The trailing checksum does not match the digest of the payload.
    ChecksumMismatch,
}

} // verus!
