//! The filter's bit array, held in a `bit_vec::BitVec` and modeled as a
//! sequence of booleans, together with the packed byte form used by the
//! state snapshot: most-significant-bit-first within each byte, padded with
//! false bits up to the next byte boundary.

use vstd::prelude::*;

verus! {

#[verifier::external_type_specification]
#[verifier::external_body]
#[verifier::reject_recursive_types(B)]
pub struct ExBitVec<B>(bit_vec::BitVec<B>);

/// The booleans a `bit_vec::BitVec` holds, in index order.
pub uninterp spec fn bit_seq(bv: bit_vec::BitVec) -> Seq<bool>;

/// The numeric value of a single bit.
pub open spec fn bit_val(b: bool) -> u8 {
    if b {
        1
    } else {
        0
    }
}

/// The bit at index `i`, reading false past the end (the padding convention).
pub open spec fn bit_at(bits: Seq<bool>, i: int) -> bool {
    0 <= i < bits.len() && bits[i]
}

/// The byte that packs bits `8*j .. 8*j + 8`, most significant bit first.
pub open spec fn byte_of_bits(bits: Seq<bool>, j: int) -> u8 {
    (128 * bit_val(bit_at(bits, 8 * j)) + 64 * bit_val(bit_at(bits, 8 * j + 1)) + 32 * bit_val(
        bit_at(bits, 8 * j + 2),
    ) + 16 * bit_val(bit_at(bits, 8 * j + 3)) + 8 * bit_val(bit_at(bits, 8 * j + 4)) + 4 * bit_val(
        bit_at(bits, 8 * j + 5),
    ) + 2 * bit_val(bit_at(bits, 8 * j + 6)) + bit_val(bit_at(bits, 8 * j + 7))) as u8
}

/// Bit `r` of `byte`, counting the most significant bit as bit 0.
pub open spec fn bit_of_byte(byte: u8, r: int) -> bool
    recommends
        0 <= r < 8,
{
    (byte >> ((7 - r) as u8)) & 1 == 1
}

/// The bits packed into `ceil(len / 8)` bytes, most significant bit first,
/// padded with false bits.
pub open spec fn pack_bits(bits: Seq<bool>) -> Seq<u8> {
    Seq::new(((bits.len() + 7) / 8) as nat, |j: int| byte_of_bits(bits, j))
}

/// Each byte unpacked into eight bits, most significant bit first.
pub open spec fn unpack_bits(bytes: Seq<u8>) -> Seq<bool> {
    Seq::new((bytes.len() * 8) as nat, |i: int| bit_of_byte(bytes[i / 8], i % 8))
}

proof fn lemma_byte_bits(b0: u8, b1: u8, b2: u8, b3: u8, b4: u8, b5: u8, b6: u8, b7: u8)
    by (bit_vector)
    requires
        b0 <= 1,
        b1 <= 1,
        b2 <= 1,
        b3 <= 1,
        b4 <= 1,
        b5 <= 1,
        b6 <= 1,
        b7 <= 1,
    ensures
        ({
            let v = (128 * b0 + 64 * b1 + 32 * b2 + 16 * b3 + 8 * b4 + 4 * b5 + 2 * b6
                + b7) as u8;
            &&& (v >> 7u8) & 1 == b0
            &&& (v >> 6u8) & 1 == b1
            &&& (v >> 5u8) & 1 == b2
            &&& (v >> 4u8) & 1 == b3
            &&& (v >> 3u8) & 1 == b4
            &&& (v >> 2u8) & 1 == b5
            &&& (v >> 1u8) & 1 == b6
            &&& (v >> 0u8) & 1 == b7
        }),
{
}

proof fn lemma_byte_of_bits_extract(bits: Seq<bool>, j: int, r: int)
    requires
        0 <= r < 8,
    ensures
        bit_of_byte(byte_of_bits(bits, j), r) == bit_at(bits, 8 * j + r),
{
    lemma_byte_bits(
        bit_val(bit_at(bits, 8 * j)),
        bit_val(bit_at(bits, 8 * j + 1)),
        bit_val(bit_at(bits, 8 * j + 2)),
        bit_val(bit_at(bits, 8 * j + 3)),
        bit_val(bit_at(bits, 8 * j + 4)),
        bit_val(bit_at(bits, 8 * j + 5)),
        bit_val(bit_at(bits, 8 * j + 6)),
        bit_val(bit_at(bits, 8 * j + 7)),
    );
}

/// Unpacking the packed form recovers the bit sequence exactly: the packed
/// bytes determine every original bit, and only padding is lost.
pub proof fn lemma_pack_unpack(bits: Seq<bool>)
    ensures
        unpack_bits(pack_bits(bits)).len() == ((bits.len() + 7) / 8) * 8,
        unpack_bits(pack_bits(bits)).len() >= bits.len(),
        unpack_bits(pack_bits(bits)).take(bits.len() as int) == bits,
{
    let packed = pack_bits(bits);
    let un = unpack_bits(packed);
    let n = bits.len() as int;
    assert(8 * ((n + 7) / 8) >= n) by {
        vstd::arithmetic::div_mod::lemma_fundamental_div_mod(n + 7, 8);
    };
    assert forall|i: int| 0 <= i < n implies un[i] == bits[i] by {
        let j = i / 8;
        let r = i % 8;
        vstd::arithmetic::div_mod::lemma_fundamental_div_mod(i, 8);
        assert(0 <= j < packed.len()) by {
            vstd::arithmetic::div_mod::lemma_div_is_ordered(i, n + 7, 8);
            vstd::arithmetic::div_mod::lemma_fundamental_div_mod(n + 7, 8);
        };
        assert(un[i] == bit_of_byte(packed[j], r));
        lemma_byte_of_bits_extract(bits, j, r);
    };
    assert(un.take(n) =~= bits);
}

/// Relies on `bit_vec::BitVec::from_elem`: a vector of `len` equal bits.
#[verifier::external_body]
pub(crate) fn bv_new(len: usize) -> (r: bit_vec::BitVec)
    ensures
        bit_seq(r).len() == len,
        forall|i: int| 0 <= i < len ==> !bit_seq(r)[i],
{
    bit_vec::BitVec::from_elem(len, false)
}

/// Relies on `bit_vec::BitVec::set`: writes the bit at `i` in place, and
/// panics when `i` is out of range, so that input is excluded.
#[verifier::external_body]
pub(crate) fn bv_set(bv: &mut bit_vec::BitVec, i: usize)
    requires
        i < bit_seq(*old(bv)).len(),
    ensures
        bit_seq(*final(bv)) == bit_seq(*old(bv)).update(i as int, true),
{
    bv.set(i, true);
}

/// Relies on `bit_vec::BitVec::get`: the bit at `i`, or `None` past the end.
#[verifier::external_body]
pub(crate) fn bv_get(bv: &bit_vec::BitVec, i: usize) -> (r: Option<bool>)
    ensures
        i < bit_seq(*bv).len() ==> r == Some(bit_seq(*bv)[i as int]),
        i >= bit_seq(*bv).len() ==> r is None,
{
    bv.get(i)
}

/// Relies on `bit_vec::BitVec::fill`: assigns every bit, keeping the length.
#[verifier::external_body]
pub(crate) fn bv_fill_false(bv: &mut bit_vec::BitVec)
    ensures
        bit_seq(*final(bv)).len() == bit_seq(*old(bv)).len(),
        forall|i: int| 0 <= i < bit_seq(*final(bv)).len() ==> !bit_seq(*final(bv))[i],
{
    bv.fill(false);
}

/// Relies on `bit_vec::BitVec::to_bytes`: the bits packed most significant
/// first, padded with zero bits to a whole byte.
#[verifier::external_body]
pub(crate) fn bv_to_bytes(bv: &bit_vec::BitVec) -> (r: Vec<u8>)
    ensures
        r@ == pack_bits(bit_seq(*bv)),
{
    bv.to_bytes()
}

/// Relies on `bit_vec::BitVec::from_bytes`: eight bits per byte, most
/// significant first. It panics when `bytes.len() * 8` overflows, so that
/// input is excluded.
#[verifier::external_body]
pub(crate) fn bv_from_bytes(bytes: &[u8]) -> (r: bit_vec::BitVec)
    requires
        bytes@.len() * 8 <= usize::MAX,
    ensures
        bit_seq(r) == unpack_bits(bytes@),
{
    bit_vec::BitVec::from_bytes(bytes)
}

/// Relies on `bit_vec::BitVec::truncate`: drops the bits past `len`.
#[verifier::external_body]
pub(crate) fn bv_truncate(bv: &mut bit_vec::BitVec, len: usize)
    requires
        len <= bit_seq(*old(bv)).len(),
    ensures
        bit_seq(*final(bv)) == bit_seq(*old(bv)).take(len as int),
{
    bv.truncate(len);
}

/// Relies on `bit_vec::BitVec::clone`: an independent copy of the same bits.
#[verifier::external_body]
pub(crate) fn bv_clone(bv: &bit_vec::BitVec) -> (r: bit_vec::BitVec)
    ensures
        bit_seq(r) == bit_seq(*bv),
{
    bv.clone()
}

} // verus!
