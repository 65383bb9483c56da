//! The on-disk entry format of the cache: a byte payload followed by a
//! 4-byte little-endian CRC-32 digest of that payload, and the routines
//! that build and validate such entries.

use vstd::prelude::*;
use vstd::bytes::{lemma_auto_spec_u32_to_from_le_bytes, spec_u32_from_le_bytes, spec_u32_to_le_bytes};
use vstd::bytes::{u32_from_le_bytes, u32_to_le_bytes};
use crate::CacheError;

verus! {

/// The CRC-32 digest of a byte sequence, as `crc32fast::hash` computes it.
/// The digest is a pure function of the bytes alone; the algorithm itself is
/// not restated here, and every contract of this crate speaks of the digest
/// only by this name.
pub uninterp spec fn crc32_of(bytes: Seq<u8>) -> u32;

/// Relies on `crc32fast::hash`: computes the CRC-32 digest of `data`, a pure
/// function of the bytes alone.
#[verifier::external_body]
pub(crate) fn crc32_hash(data: &[u8]) -> (r: u32)
    ensures
        r == crc32_of(data@),
{
    crc32fast::hash(data)
}

/// The bytes stored on disk for a payload: the payload itself, then the
/// little-endian encoding of its CRC-32 digest.
pub open spec fn entry_bytes(payload: Seq<u8>) -> Seq<u8> {
    payload + spec_u32_to_le_bytes(crc32_of(payload))
}

/// The payload part of a stored entry: everything but the 4 trailing
/// checksum bytes.
pub open spec fn stored_payload(bytes: Seq<u8>) -> Seq<u8> {
    bytes.take(bytes.len() - 4)
}

/// The checksum kept in a stored entry: its last 4 bytes, read little-endian.
pub open spec fn stored_crc(bytes: Seq<u8>) -> u32 {
    spec_u32_from_le_bytes(bytes.skip(bytes.len() - 4))
}

/// A stored entry is valid when it is long enough to hold a payload and a
/// checksum, and its trailing checksum equals the digest of its payload.
/// Anything else is corrupt and must never reach a caller.
pub open spec fn valid_entry(bytes: Seq<u8>) -> bool {
    &&& bytes.len() > 4
    &&& stored_crc(bytes) == crc32_of(stored_payload(bytes))
}

/// An entry of 4 bytes or fewer cannot hold a payload and a checksum, so it
/// is never valid: a truncated file is always treated as corrupt, never as
/// an empty payload.
pub proof fn lemma_undersized_entry_corrupt(bytes: Seq<u8>)
    ensures
        bytes.len() <= 4 ==> !valid_entry(bytes),
{
}

/// Round trip of the entry format: the entry built for a payload validates,
/// and stripping its 4 trailing bytes gives back exactly that payload.
/// A zero-length payload is the one exception: its entry is exactly 4 bytes,
/// which validation always rejects as undersized, so an empty payload can
/// never be read back.
pub proof fn lemma_entry_round_trip(payload: Seq<u8>)
    requires
        payload.len() > 0,
    ensures
        valid_entry(entry_bytes(payload)),
        stored_payload(entry_bytes(payload)) == payload,
        entry_bytes(payload).len() == payload.len() + 4,
{
    lemma_auto_spec_u32_to_from_le_bytes();
    let e = entry_bytes(payload);
    assert(spec_u32_to_le_bytes(crc32_of(payload)).len() == 4);
    assert(e.skip(e.len() - 4) =~= spec_u32_to_le_bytes(crc32_of(payload)));
    assert(e.take(e.len() - 4) =~= payload);
    assert(stored_payload(e) == payload);
    assert(stored_crc(e) == spec_u32_from_le_bytes(spec_u32_to_le_bytes(crc32_of(payload))));
    assert(stored_crc(e) == crc32_of(payload));
}

/// Builds the stored form of a payload: the payload followed by the
/// little-endian bytes of its CRC-32 digest.
pub fn encode_entry(payload: &[u8]) -> (r: Vec<u8>)
    ensures
        r@ == entry_bytes(payload@),
{
    let crc = crc32_hash(payload);
    let crc_bytes = u32_to_le_bytes(crc);
    let mut out: Vec<u8> = Vec::new();
    let mut i: usize = 0;
    while i < payload.len()
        invariant
            0 <= i <= payload@.len(),
            out@ == payload@.take(i as int),
        decreases payload@.len() - i,
    {
        out.push(payload[i]);
        i = i + 1;
        proof {
            assert(out@ =~= payload@.take(i as int));
        }
    }
    proof {
        assert(out@ =~= payload@);
    }
    let mut j: usize = 0;
    while j < crc_bytes.len()
        invariant
            0 <= j <= crc_bytes@.len(),
            crc_bytes@ == spec_u32_to_le_bytes(crc32_of(payload@)),
            out@ == payload@ + crc_bytes@.take(j as int),
        decreases crc_bytes@.len() - j,
    {
        out.push(crc_bytes[j]);
        j = j + 1;
        proof {
            assert(out@ =~= payload@ + crc_bytes@.take(j as int));
        }
    }
    proof {
        assert(crc_bytes@.take(crc_bytes@.len() as int) =~= crc_bytes@);
        assert(out@ =~= entry_bytes(payload@));
    }
    out
}

/// Checks a stored entry against its trailing checksum, reporting exactly why
/// an invalid entry is rejected: too short to hold a checksum at all, or a
/// digest that does not match the payload.
pub fn validate_checksum(bytes: &[u8]) -> (r: Result<(), CacheError>)
    ensures
        r is Ok <==> valid_entry(bytes@),
        r == Err::<(), CacheError>(CacheError::UndersizedEntry) <==> bytes@.len() <= 4,
        r == Err::<(), CacheError>(CacheError::ChecksumMismatch)
            <==> (bytes@.len() > 4 && stored_crc(bytes@) != crc32_of(stored_payload(bytes@))),
{
    let n = bytes.len();
    if n <= 4 {
        Err(CacheError::UndersizedEntry)
    } else {
        let tail = vstd::slice::slice_subrange(bytes, n - 4, n);
        let kept = u32_from_le_bytes(tail);
        proof {
            assert(bytes@.subrange(n - 4, n as int) =~= bytes@.skip(bytes@.len() - 4));
        }
        let body = vstd::slice::slice_subrange(bytes, 0, n - 4);
        let computed = crc32_hash(body);
        proof {
            assert(bytes@.subrange(0, n - 4) =~= stored_payload(bytes@));
        }
        if kept == computed {
            Ok(())
        } else {
            Err(CacheError::ChecksumMismatch)
        }
    }
}

} // verus!
