//! Trusted boundary to the byte-oriented hash function that the commitment
//! scheme consumes. The digest is a fixed-width reduction of a byte string
//! and depends on those bytes alone, so it is given one name here and every
//! contract above speaks of that name.

use vstd::prelude::*;
use vstd::utf8::encode_utf8;

verus! {

/// The fixed 32-byte digest of a byte string.
pub uninterp spec fn digest_of(bytes: Seq<u8>) -> Seq<u8>;

/// Relies on `blake3::hash`: a fixed 32-byte digest of the text's bytes,
/// a function of those bytes alone.
#[verifier::external_body]
pub(crate) fn hash_text(s: &str) -> (r: [u8; 32])
    ensures
        r@ == digest_of(encode_utf8(s@)),
{
    *blake3::hash(s.as_bytes()).as_bytes()
}

/// Relies on `blake3::hash`: the digest of two digests laid side by side,
/// the node step of the commitment tree.
#[verifier::external_body]
pub(crate) fn hash_pair(a: &[u8; 32], b: &[u8; 32]) -> (r: [u8; 32])
    ensures
        r@ == digest_of(a@ + b@),
{
    let mut buf = [0u8; 64];
    buf[..32].copy_from_slice(a);
    buf[32..].copy_from_slice(b);
    *blake3::hash(&buf).as_bytes()
}

/// The 64-bit word standing at the front of a byte string, little-endian.
pub open spec fn le_word(d: Seq<u8>) -> u64
    recommends
        d.len() >= 8,
{
    (d[0] as u64) | ((d[1] as u64) << 8) | ((d[2] as u64) << 16) | ((d[3] as u64) << 24) | (
    (d[4] as u64) << 32) | ((d[5] as u64) << 40) | ((d[6] as u64) << 48) | ((d[7] as u64) << 56)
}

/// Reads the leading 64-bit word of a digest.
pub(crate) fn le_word_of(d: &[u8; 32]) -> (r: u64)
    ensures
        r == le_word(d@),
{
    (d[0] as u64) | ((d[1] as u64) << 8) | ((d[2] as u64) << 16) | ((d[3] as u64) << 24) | (
    (d[4] as u64) << 32) | ((d[5] as u64) << 40) | ((d[6] as u64) << 48) | ((d[7] as u64) << 56)
}

} // verus!
