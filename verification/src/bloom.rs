//! The Bloom filter itself: sizing, construction, insert and query over the
//! bit array, and the portable state snapshot.

use crate::bits::bit_seq;
use crate::bits::bv_clone;
use crate::bits::bv_fill_false;
use crate::bits::bv_from_bytes;
use crate::bits::bv_get;
use crate::bits::bv_new;
use crate::bits::bv_set;
use crate::bits::bv_to_bytes;
use crate::bits::bv_truncate;
use crate::bits::lemma_pack_unpack;
use crate::bits::pack_bits;
use crate::bits::unpack_bits;
use crate::hashing::probe_index;
use crate::hashing::random_seed;
use crate::hashing::xx64;
use crate::hashing::xx_digest;
use vstd::prelude::*;

verus! {

/// Numerator of a rational approximation of `ln 2`, together with
/// `LN2_DENOM`: 0.693147180559945309, exact to eighteen decimal digits.
pub const LN2_NUMER: u64 = 693147180559945309;

/// Denominator of the rational approximation of `ln 2`.
pub const LN2_DENOM: u64 = 1000000000000000000;

/// Bloom filter structure.
pub struct Bloom {
    bitmap: bit_vec::BitVec,
    bitmap_size: u64,
    k: u64,
    seeds: (u64, u64),
}

/// A portable snapshot of a filter's state: the bit array packed into bytes,
/// the sizing, and the two hash seeds. Reconstructing a filter from it
/// reproduces every query result of the filter it was exported from.
pub struct SerdeBloom {
    pub bitmap: Vec<u8>,
    pub bitmap_size: u64,
    pub k: u64,
    pub seeds: (u64, u64),
}

/// The recommended probe count for `m` bits and `n` expected items:
/// `ceil((m / n) * ln 2)`, floored at 1, with `ln 2` as
/// `LN2_NUMER / LN2_DENOM`.
pub open spec fn optimal_k_spec(m: int, n: int) -> int
    recommends
        m >= 1,
        n >= 1,
{
    let k = (m * (LN2_NUMER as int) + n * (LN2_DENOM as int) - 1) / (n * (LN2_DENOM as int));
    if k < 1 {
        1
    } else {
        k
    }
}

impl Bloom {
    /// The bit array.
    pub closed spec fn bits(&self) -> Seq<bool> {
        bit_seq(self.bitmap)
    }

    /// The number of bits, `m`.
    pub closed spec fn num_bits(&self) -> u64 {
        self.bitmap_size
    }

    /// The number of probes per item, `k`.
    pub closed spec fn num_hashes(&self) -> u64 {
        self.k
    }

    /// The two seeds that key the hash functions.
    pub closed spec fn seed_pair(&self) -> (u64, u64) {
        self.seeds
    }

    /// The structural invariant: at least one bit and one probe, the bit
    /// array exactly `m` bits long, and `m` small enough that every bit
    /// index and the padded byte count stay addressable.
    pub closed spec fn wf(&self) -> bool {
        &&& self.bitmap_size >= 1
        &&& self.k >= 1
        &&& bit_seq(self.bitmap).len() == self.bitmap_size
        &&& self.bitmap_size + 7 <= usize::MAX
    }

    /// The bit position probed for `item` at round `i`.
    pub closed spec fn spec_probe(&self, item: u64, i: u64) -> u64 {
        probe_index(xx64(self.seeds.0, item), xx64(self.seeds.1, item), i, self.bitmap_size)
    }

    /// Membership: every one of the `k` probed positions is set.
    pub closed spec fn spec_contains(&self, item: u64) -> bool {
        forall|i: u64| i < self.k ==> self.bits()[self.spec_probe(item, i) as int]
    }

    /// The two filters share identity (sizing and seeds), so they probe the
    /// same positions for every item.
    pub open spec fn same_identity(&self, other: &Bloom) -> bool {
        &&& self.num_bits() == other.num_bits()
        &&& self.num_hashes() == other.num_hashes()
        &&& self.seed_pair() == other.seed_pair()
    }

    /// Create a new bloom filter structure.
    /// `bitmap_size` is the size in bytes (not bits) allocated in memory,
    /// `items_count` an estimation of the maximum number of items to store.
    pub fn new(bitmap_size: usize, items_count: usize) -> (r: Bloom)
        requires
            bitmap_size >= 1,
            items_count >= 1,
            bitmap_size * 8 + 7 <= usize::MAX,
        ensures
            r.wf(),
            r.num_bits() == bitmap_size * 8,
            r.num_hashes() == optimal_k_spec(bitmap_size * 8, items_count as int),
            forall|j: int| 0 <= j < r.bits().len() ==> !r.bits()[j],
    {
        let m: u64 = (bitmap_size as u64) * 8;
        let k = Self::optimal_k_num(m, items_count);
        let bitmap = bv_new(m as usize);
        let seed_a = random_seed();
        let seed_b = random_seed();
        Bloom { bitmap, bitmap_size: m, k, seeds: (seed_a, seed_b) }
    }

    /// Create a bloom filter structure with an existing state, reusing the
    /// supplied sizing and seeds exactly: the unpacked bits, truncated to
    /// `bitmap_size` bits.
    pub fn from_existing(bitmap: &[u8], bitmap_size: u64, k: u64, seeds: (u64, u64)) -> (r: Bloom)
        requires
            bitmap_size >= 1,
            k >= 1,
            bitmap@.len() * 8 <= usize::MAX,
            bitmap_size + 7 <= usize::MAX,
            bitmap_size <= bitmap@.len() * 8,
        ensures
            r.wf(),
            r.num_bits() == bitmap_size,
            r.num_hashes() == k,
            r.seed_pair() == seeds,
            r.bits() == unpack_bits(bitmap@).take(bitmap_size as int),
    {
        let mut bv = bv_from_bytes(bitmap);
        bv_truncate(&mut bv, bitmap_size as usize);
        Bloom { bitmap: bv, bitmap_size, k, seeds }
    }

    /// The two keyed digests of `item`, one per seed.
    fn hashes(&self, item: &u64) -> (r: (u64, u64))
        ensures
            r.0 == xx64(self.seed_pair().0, *item),
            r.1 == xx64(self.seed_pair().1, *item),
    {
        (xx_digest(self.seeds.0, item), xx_digest(self.seeds.1, item))
    }

    /// The bit position of probe `i_k`, from the two digests.
    fn bit_offset(&self, hashes: (u64, u64), i_k: u64) -> (r: usize)
        requires
            self.wf(),
        ensures
            r == probe_index(hashes.0, hashes.1, i_k, self.num_bits()),
            r < self.num_bits(),
    {
        let offset: u64 = hashes.0.wrapping_add(i_k.wrapping_mul(hashes.1)) % self.bitmap_size;
        offset as usize
    }

    /// Some probe among the first `n` for `item` lands on bit `j`.
    pub open spec fn is_probe_target(&self, item: u64, n: int, j: int) -> bool {
        exists|i: u64| i < n && self.spec_probe(item, i) == j
    }

    /// Record the presence of an item: set each of the `k` probed bits. The
    /// bit array only grows; every other bit is untouched, and the item is
    /// contained afterwards.
    pub fn add(&mut self, item: &u64)
        requires
            old(self).wf(),
        ensures
            final(self).wf(),
            final(self).same_identity(old(self)),
            forall|j: int|
                0 <= j < final(self).bits().len() ==> final(self).bits()[j] == (old(
                    self,
                ).bits()[j] || old(self).is_probe_target(
                    *item,
                    old(self).num_hashes() as int,
                    j,
                )),
            final(self).spec_contains(*item),
    {
        let hashes = self.hashes(item);
        let k = self.k;
        let ghost orig = *self;
        let mut i_k: u64 = 0;
        while i_k < k
            invariant
                orig.wf(),
                k == orig.k,
                self.bitmap_size == orig.bitmap_size,
                self.k == orig.k,
                self.seeds == orig.seeds,
                self.wf(),
                i_k <= k,
                hashes.0 == xx64(orig.seeds.0, *item),
                hashes.1 == xx64(orig.seeds.1, *item),
                self.bits().len() == orig.bits().len(),
                forall|j: int| #![trigger self.bits()[j]]
                    0 <= j < self.bits().len() ==> self.bits()[j] == (orig.bits()[j]
                        || orig.is_probe_target(*item, i_k as int, j)),
            decreases k - i_k,
        {
            let bit_offset = self.bit_offset(hashes, i_k);
            proof {
                assert(orig.spec_probe(*item, i_k) == bit_offset);
            }
            let ghost pre = self.bits();
            bv_set(&mut self.bitmap, bit_offset);
            proof {
                assert forall|j: int| 0 <= j < self.bits().len() implies self.bits()[j] == (
                orig.bits()[j] || orig.is_probe_target(*item, i_k + 1, j)) by {
                    if j == bit_offset as int {
                        assert(i_k < i_k + 1 && orig.spec_probe(*item, i_k) == j);
                        assert(orig.is_probe_target(*item, i_k + 1, j));
                        assert(self.bits()[j]);
                    } else {
                        assert(self.bits()[j] == pre[j]);
                        assert(pre[j] == (orig.bits()[j] || orig.is_probe_target(
                            *item,
                            i_k as int,
                            j,
                        )));
                        if orig.is_probe_target(*item, i_k as int, j) {
                            let w = choose|i: u64| i < i_k && orig.spec_probe(*item, i) == j;
                            assert(w < i_k + 1 && orig.spec_probe(*item, w) == j);
                            assert(orig.is_probe_target(*item, i_k + 1, j));
                        }
                        if orig.is_probe_target(*item, i_k + 1, j) {
                            let w = choose|i: u64| i < i_k + 1 && orig.spec_probe(*item, i) == j;
                            assert(w < i_k);
                            assert(orig.is_probe_target(*item, i_k as int, j));
                        }
                    }
                };
            }
            i_k = i_k + 1;
        }
        proof {
            assert(orig == *old(self));
            assert forall|i: u64| i < self.k implies self.bits()[self.spec_probe(
                *item,
                i,
            ) as int] by {
                let j = self.spec_probe(*item, i) as int;
                assert(self.spec_probe(*item, i) == orig.spec_probe(*item, i));
                assert(orig.spec_probe(*item, i) < orig.bitmap_size);
                assert(self.bits().len() == orig.bitmap_size);
                assert(i < i_k && orig.spec_probe(*item, i) == j);
                assert(orig.is_probe_target(*item, i_k as int, j));
                assert(self.bits()[j]);
            };
        }
    }

    /// Check if an item is present in the set: true exactly when every one
    /// of the `k` probed bits is set. There can be false positives, but no
    /// false negatives.
    pub fn check(&self, item: &u64) -> (r: bool)
        requires
            self.wf(),
        ensures
            r == self.spec_contains(*item),
    {
        let hashes = self.hashes(item);
        let k = self.k;
        let mut i_k: u64 = 0;
        while i_k < k
            invariant
                self.wf(),
                k == self.k,
                i_k <= k,
                hashes.0 == xx64(self.seed_pair().0, *item),
                hashes.1 == xx64(self.seed_pair().1, *item),
                forall|i: u64| i < i_k ==> self.bits()[self.spec_probe(*item, i) as int],
            decreases k - i_k,
        {
            let bit_offset = self.bit_offset(hashes, i_k);
            match bv_get(&self.bitmap, bit_offset) {
                Some(bit) => {
                    if !bit {
                        proof {
                            assert(!self.bits()[self.spec_probe(*item, i_k) as int]);
                        }
                        return false;
                    }
                },
                None => {
                    proof {
                        assert(false);
                    }
                },
            }
            i_k = i_k + 1;
        }
        true
    }

    /// Record the presence of an item and return its previous state, from
    /// one pass over the same probe positions: equivalent to `check`
    /// followed by `add`.
    pub fn check_and_add(&mut self, item: &u64) -> (r: bool)
        requires
            old(self).wf(),
        ensures
            r == old(self).spec_contains(*item),
            final(self).wf(),
            final(self).same_identity(old(self)),
            forall|j: int|
                0 <= j < final(self).bits().len() ==> final(self).bits()[j] == (old(
                    self,
                ).bits()[j] || old(self).is_probe_target(
                    *item,
                    old(self).num_hashes() as int,
                    j,
                )),
            final(self).spec_contains(*item),
    {
        let hashes = self.hashes(item);
        let k = self.k;
        let ghost orig = *self;
        let mut found = true;
        let mut i_k: u64 = 0;
        while i_k < k
            invariant
                orig.wf(),
                k == orig.k,
                self.bitmap_size == orig.bitmap_size,
                self.k == orig.k,
                self.seeds == orig.seeds,
                self.wf(),
                i_k <= k,
                hashes.0 == xx64(orig.seeds.0, *item),
                hashes.1 == xx64(orig.seeds.1, *item),
                self.bits().len() == orig.bits().len(),
                found == (forall|i: u64|
                    i < i_k ==> orig.bits()[orig.spec_probe(*item, i) as int]),
                forall|j: int| #![trigger self.bits()[j]]
                    0 <= j < self.bits().len() ==> self.bits()[j] == (orig.bits()[j]
                        || orig.is_probe_target(*item, i_k as int, j)),
            decreases k - i_k,
        {
            let bit_offset = self.bit_offset(hashes, i_k);
            proof {
                assert(orig.spec_probe(*item, i_k) == bit_offset);
            }
            let ghost pre = self.bits();
            let prior = match bv_get(&self.bitmap, bit_offset) {
                Some(bit) => bit,
                None => {
                    proof {
                        assert(false);
                    }
                    false
                },
            };
            if !prior {
                found = false;
                bv_set(&mut self.bitmap, bit_offset);
            }
            proof {
                assert forall|j: int| 0 <= j < self.bits().len() implies self.bits()[j] == (
                orig.bits()[j] || orig.is_probe_target(*item, i_k + 1, j)) by {
                    if j == bit_offset as int {
                        assert(i_k < i_k + 1 && orig.spec_probe(*item, i_k) == j);
                        assert(orig.is_probe_target(*item, i_k + 1, j));
                        assert(self.bits()[j]);
                    } else {
                        assert(self.bits()[j] == pre[j]);
                        assert(pre[j] == (orig.bits()[j] || orig.is_probe_target(
                            *item,
                            i_k as int,
                            j,
                        )));
                        if orig.is_probe_target(*item, i_k as int, j) {
                            let w = choose|i: u64| i < i_k && orig.spec_probe(*item, i) == j;
                            assert(w < i_k + 1 && orig.spec_probe(*item, w) == j);
                            assert(orig.is_probe_target(*item, i_k + 1, j));
                        }
                        if orig.is_probe_target(*item, i_k + 1, j) {
                            let w = choose|i: u64| i < i_k + 1 && orig.spec_probe(*item, i) == j;
                            assert(w < i_k);
                            assert(orig.is_probe_target(*item, i_k as int, j));
                        }
                    }
                };
                if !prior {
                    assert(pre[bit_offset as int] == (orig.bits()[bit_offset as int]
                        || orig.is_probe_target(*item, i_k as int, bit_offset as int)));
                    assert(!orig.bits()[orig.spec_probe(*item, i_k) as int]);
                } else {
                    if orig.bits()[bit_offset as int] {
                        assert(found == (forall|i: u64|
                            i < i_k + 1 ==> orig.bits()[orig.spec_probe(*item, i) as int])) by {
                            if found {
                                assert forall|i: u64| i < i_k + 1 implies orig.bits()[orig.spec_probe(
                                    *item,
                                    i,
                                ) as int] by {
                                    if i < i_k {
                                        assert(orig.bits()[orig.spec_probe(*item, i) as int]);
                                    } else {
                                        assert(orig.bits()[bit_offset as int]);
                                    }
                                };
                            }
                        };
                    } else {
                        assert(pre[bit_offset as int] == (orig.bits()[bit_offset as int]
                            || orig.is_probe_target(*item, i_k as int, bit_offset as int)));
                        let w = choose|i: u64| i < i_k && orig.spec_probe(*item, i) == bit_offset;
                        assert(!orig.bits()[orig.spec_probe(*item, w) as int]);
                        assert(!found);
                    }
                }
            }
            i_k = i_k + 1;
        }
        proof {
            assert(orig == *old(self));
            assert forall|i: u64| i < self.k implies self.bits()[self.spec_probe(
                *item,
                i,
            ) as int] by {
                let j = self.spec_probe(*item, i) as int;
                assert(self.spec_probe(*item, i) == orig.spec_probe(*item, i));
                assert(orig.spec_probe(*item, i) < orig.bitmap_size);
                assert(self.bits().len() == orig.bitmap_size);
                assert(i < i_k && orig.spec_probe(*item, i) == j);
                assert(orig.is_probe_target(*item, i_k as int, j));
                assert(self.bits()[j]);
            };
        }
        found
    }

    /// Clear all of the bits in the filter, removing all keys from the set.
    /// The sizing and the seeds are unchanged.
    pub fn clear(&mut self)
        requires
            old(self).wf(),
        ensures
            final(self).wf(),
            final(self).same_identity(old(self)),
            final(self).bits().len() == old(self).bits().len(),
            forall|j: int| 0 <= j < final(self).bits().len() ==> !final(self).bits()[j],
    {
        bv_fill_false(&mut self.bitmap);
    }

    /// Return an independent copy of the bitmap.
    pub fn bitmap(&self) -> (r: bit_vec::BitVec)
        ensures
            bit_seq(r) == self.bits(),
    {
        bv_clone(&self.bitmap)
    }

    /// Return the number of bits (`m`) in the filter.
    pub fn number_of_bits(&self) -> (r: u64)
        ensures
            r == self.num_bits(),
    {
        self.bitmap_size
    }

    /// Return the number of hash probes (`k`) used by `check` and `add`.
    pub fn number_of_hash_functions(&self) -> (r: u64)
        ensures
            r == self.num_hashes(),
    {
        self.k
    }

    /// Return the two seeds that key the xxHash64 instances. The live hash
    /// instances are derived from them on demand, never stored.
    pub fn xx(&self) -> (r: (u64, u64))
        ensures
            r == self.seed_pair(),
    {
        self.seeds
    }

    /// Export the filter's state as a portable snapshot: the bit array
    /// packed into bytes, the sizing, and the seeds, exactly as held.
    pub fn export_state(&self) -> (s: SerdeBloom)
        requires
            self.wf(),
        ensures
            s.bitmap@ == pack_bits(self.bits()),
            s.bitmap_size == self.num_bits(),
            s.k == self.num_hashes(),
            s.seeds == self.seed_pair(),
    {
        SerdeBloom {
            bitmap: bv_to_bytes(&self.bitmap),
            bitmap_size: self.bitmap_size,
            k: self.k,
            seeds: self.seeds,
        }
    }

    /// Reconstruct a filter from a snapshot, reusing the supplied sizing
    /// and seeds exactly; no seed is re-randomized.
    pub fn from_state(state: &SerdeBloom) -> (r: Bloom)
        requires
            state.bitmap_size >= 1,
            state.k >= 1,
            state.bitmap@.len() * 8 <= usize::MAX,
            state.bitmap_size + 7 <= usize::MAX,
            state.bitmap_size <= state.bitmap@.len() * 8,
        ensures
            r.wf(),
            r.num_bits() == state.bitmap_size,
            r.num_hashes() == state.k,
            r.seed_pair() == state.seeds,
            r.bits() == unpack_bits(state.bitmap@).take(state.bitmap_size as int),
    {
        Bloom::from_existing(state.bitmap.as_slice(), state.bitmap_size, state.k, state.seeds)
    }

    /// An independent deep copy, defined as export immediately followed by
    /// import: same bits, sizing and seeds, sharing no mutable state.
    pub fn from_existing_struct(other: &Bloom) -> (r: Bloom)
        requires
            other.wf(),
        ensures
            r.wf(),
            r.same_identity(other),
            r.bits() == other.bits(),
            forall|x: u64| r.spec_contains(x) == other.spec_contains(x),
    {
        let state = other.export_state();
        proof {
            lemma_pack_unpack(other.bits());
            vstd::arithmetic::div_mod::lemma_fundamental_div_mod(
                other.bits().len() as int + 7,
                8,
            );
        }
        let r = Bloom::from_state(&state);
        proof {
            assert(r.bits() =~= other.bits());
            assert forall|x: u64| r.spec_contains(x) == other.spec_contains(x) by {
                lemma_state_round_trip(*other, r, x);
            };
        }
        r
    }

    /// The recommended probe count, computed in fixed-point arithmetic:
    /// `ceil((m / n) * ln 2)` with `ln 2` as `LN2_NUMER / LN2_DENOM`,
    /// floored at 1.
    fn optimal_k_num(bitmap_size: u64, items_count: usize) -> (k: u64)
        requires
            bitmap_size >= 1,
            items_count >= 1,
        ensures
            k == optimal_k_spec(bitmap_size as int, items_count as int),
            k >= 1,
    {
        proof {
            assert(usize::MAX as int <= u64::MAX as int);
            assert((bitmap_size as int) * (LN2_NUMER as int) <= (u128::MAX as int) && (
            items_count as int) * (LN2_DENOM as int) >= LN2_DENOM as int && (bitmap_size as int) * (
            LN2_NUMER as int) + (items_count as int) * (LN2_DENOM as int) <= (u128::MAX as int))
                by (nonlinear_arith)
                requires
                    bitmap_size >= 1,
                    items_count >= 1,
                    bitmap_size as int <= u64::MAX as int,
                    items_count as int <= u64::MAX as int,
            ;
            Self::lemma_k_fits(bitmap_size as int, items_count as int);
        }
        let numer: u128 = (bitmap_size as u128) * (LN2_NUMER as u128);
        let denom: u128 = (items_count as u128) * (LN2_DENOM as u128);
        let q: u128 = (numer + denom - 1) / denom;
        let k: u128 = if q < 1 {
            1
        } else {
            q
        };
        k as u64
    }

    /// The probe-count formula never exceeds `m` itself, so it fits in the
    /// same machine word as `m`.
    proof fn lemma_k_fits(m: int, n: int)
        requires
            m >= 1,
            n >= 1,
        ensures
            1 <= optimal_k_spec(m, n) <= m,
    {
        let numer = m * (LN2_NUMER as int);
        let denom = n * (LN2_DENOM as int);
        assert(numer >= LN2_NUMER as int && denom >= LN2_DENOM as int) by (nonlinear_arith)
            requires
                m >= 1,
                n >= 1,
                numer == m * (LN2_NUMER as int),
                denom == n * (LN2_DENOM as int),
        ;
        let q = (numer + denom - 1) / denom;
        assert(q >= 1) by {
            vstd::arithmetic::div_mod::lemma_div_is_ordered(denom, numer + denom - 1, denom);
            vstd::arithmetic::div_mod::lemma_div_by_self(denom);
        };
        assert(numer + denom - 1 < denom * (m + 1)) by (nonlinear_arith)
            requires
                m >= 1,
                n >= 1,
                numer == m * (LN2_NUMER as int),
                denom == n * (LN2_DENOM as int),
        ;
        assert(q < m + 1) by {
            vstd::arithmetic::div_mod::lemma_multiply_divide_lt(numer + denom - 1, denom, m + 1);
        };
    }
}

/// No false negatives: a contained item stays contained under any further
/// insertions. Insertions only raise bits, and a filter whose bit array
/// dominates another's — with the same sizing and seeds — contains
/// everything the other contains.
pub proof fn lemma_contains_monotone(before: Bloom, after: Bloom, item: u64)
    requires
        before.wf(),
        after.wf(),
        after.same_identity(&before),
        after.bits().len() == before.bits().len(),
        forall|j: int| 0 <= j < before.bits().len() ==> before.bits()[j] ==> after.bits()[j],
        before.spec_contains(item),
    ensures
        after.spec_contains(item),
{
    assert forall|i: u64| i < after.num_hashes() implies after.bits()[after.spec_probe(
        item,
        i,
    ) as int] by {
        assert(after.spec_probe(item, i) == before.spec_probe(item, i));
        assert(before.spec_probe(item, i) < before.bitmap_size);
        assert(before.bits()[before.spec_probe(item, i) as int]);
    };
}

/// After a clear, nothing is contained: with every bit false and at least
/// one probe per query, every membership query returns false.
pub proof fn lemma_cleared_filter_contains_nothing(filter: Bloom, item: u64)
    requires
        filter.wf(),
        forall|j: int| 0 <= j < filter.bits().len() ==> !filter.bits()[j],
    ensures
        !filter.spec_contains(item),
{
    assert(filter.spec_probe(item, 0) < filter.num_bits());
    assert(!filter.bits()[filter.spec_probe(item, 0) as int]);
}

/// Round-trip fidelity: a filter reconstructed from an exported snapshot
/// has the same bit array, so it answers every membership query exactly as
/// the original does, and reports the same sizing.
pub proof fn lemma_state_round_trip(original: Bloom, restored: Bloom, item: u64)
    requires
        original.wf(),
        restored.wf(),
        restored.same_identity(&original),
        restored.bits() == unpack_bits(pack_bits(original.bits())).take(
            original.num_bits() as int,
        ),
    ensures
        restored.bits() == original.bits(),
        restored.spec_contains(item) == original.spec_contains(item),
{
    lemma_pack_unpack(original.bits());
    assert(restored.bits() == original.bits());
    assert forall|i: u64| i < original.num_hashes() implies original.spec_probe(item, i)
        == restored.spec_probe(item, i) by {};
    if original.spec_contains(item) {
        lemma_contains_monotone(original, restored, item);
    }
    if restored.spec_contains(item) {
        lemma_contains_monotone(restored, original, item);
    }
}

} // verus!
