//! A Bloom filter: a probabilistic set-membership structure with no false
//! negatives and a tunable false-positive rate.
//!
//! The filter owns a fixed-size bit array and two 64-bit seeds. Each item is
//! hashed twice with seeded xxHash64, and the two digests are combined by
//! double hashing into `k` probe positions. Inserting sets the probed bits;
//! a query reports whether every probed bit is set. The whole state can be
//! exported as a portable snapshot and faithfully reconstructed from it.

mod bits;
mod bloom;
mod hashing;

pub use bits::lemma_pack_unpack;
pub use bits::pack_bits;
pub use bits::unpack_bits;
pub use bloom::Bloom;
pub use bloom::SerdeBloom;
pub use bloom::lemma_cleared_filter_contains_nothing;
pub use bloom::lemma_contains_monotone;
pub use bloom::lemma_state_round_trip;
