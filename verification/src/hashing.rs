//! The keyed 64-bit hashes and the double-hashing probe positions.
//!
//! Each filter keys two xxHash64 instances with two independently drawn
//! seeds. An item is hashed once per seed, and probe `i` combines the two
//! digests as `(h0 + i * h1) mod m` with 64-bit wraparound arithmetic.

use std::hash::Hasher;
use vstd::prelude::*;

verus! {

/// The xxHash64 digest of the eight little-endian bytes of `item`, keyed by
/// `seed`. The digest is a function of the seed and the bytes alone.
pub uninterp spec fn xx64(seed: u64, item: u64) -> u64;

/// Relies on `twox_hash::XxHash64` (`with_seed`, `Hasher::write`,
/// `Hasher::finish`): the digest depends on the seed and the written bytes
/// alone, on every machine.
#[verifier::external_body]
pub(crate) fn xx_digest(seed: u64, item: &u64) -> (r: u64)
    ensures
        r == xx64(seed, *item),
{
    let mut hasher = twox_hash::XxHash64::with_seed(seed);
    hasher.write(&item.to_le_bytes());
    hasher.finish()
}

/// Relies on `rand::random`: a fresh 64-bit value; nothing is assumed of
/// which value comes back.
#[verifier::external_body]
pub(crate) fn random_seed() -> u64 {
    rand::random()
}

/// Probe `i` of the double-hashing scheme: `(h0 + i * h1) mod m`, with the
/// product and the sum wrapping at 64 bits.
pub open spec fn probe_index(h0: u64, h1: u64, i: u64, m: u64) -> u64
    recommends
        m > 0,
{
    vstd::wrapping::u64_specs::wrapping_add(h0, vstd::wrapping::u64_specs::wrapping_mul(i, h1)) % m
}

} // verus!
