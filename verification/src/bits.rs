//! The mathematical model of bit-addressed storage.
//!
//! A byte buffer is viewed as a string of `8 * len` bits. The bit at global
//! position `i` lives in byte `i / 8` and is counted from the most
//! significant bit of that byte down (bit 0 of a byte is its MSB). The value
//! of a bit range is assembled least-significant-bit first: the bit at the
//! lowest global position becomes bit 0 of the value.

use vstd::prelude::*;
use vstd::arithmetic::power2::{lemma_pow2_unfold, pow2};

verus! {

/// Bit `k` of byte `b`, counted MSB-first: bit 0 is the most significant.
pub open spec fn byte_bit(b: u8, k: int) -> bool
    recommends
        0 <= k < 8,
{
    (b >> ((7 - k) as u8)) & 1 == 1
}

/// The bit at global position `i` of a byte buffer.
pub open spec fn bit_at(s: Seq<u8>, i: int) -> bool
    recommends
        0 <= i < 8 * s.len(),
{
    byte_bit(s[i / 8], i % 8)
}

/// Bit `i` of a 64-bit pattern, counted LSB-first: bit 0 is the least
/// significant.
pub open spec fn u64_bit(v: u64, i: u64) -> bool
    recommends
        i < 64,
{
    (v >> i) & 1 == 1
}

/// The value of the `w`-bit range starting at global position `start`,
/// assembled LSB-first: the bit at `start` is bit 0 of the value.
pub open spec fn range_val(s: Seq<u8>, start: int, w: nat) -> nat
    recommends
        0 <= start,
        start + w <= 8 * s.len(),
    decreases w,
{
    if w == 0 {
        0
    } else {
        (if bit_at(s, start) {
            1nat
        } else {
            0nat
        }) + 2 * range_val(s, start + 1, (w - 1) as nat)
    }
}

/// A range value only depends on the bits inside the range.
pub proof fn lemma_range_val_congruent(s1: Seq<u8>, s2: Seq<u8>, start: int, w: nat)
    requires
        forall|i: int| 0 <= i < w ==> #[trigger] bit_at(s1, start + i) == bit_at(s2, start + i),
    ensures
        range_val(s1, start, w) == range_val(s2, start, w),
    decreases w,
{
    if w > 0 {
        assert(bit_at(s1, start + 0) == bit_at(s2, start + 0));
        assert forall|i: int| 0 <= i < w - 1 implies #[trigger] bit_at(s1, start + 1 + i) == bit_at(
            s2,
            start + 1 + i,
        ) by {
            assert(bit_at(s1, start + (i + 1)) == bit_at(s2, start + (i + 1)));
        }
        lemma_range_val_congruent(s1, s2, start + 1, (w - 1) as nat);
    }
}

/// Extending a range by one bit at its top adds that bit with weight `2^w`.
pub proof fn lemma_range_val_snoc(s: Seq<u8>, start: int, w: nat)
    ensures
        range_val(s, start, w + 1) == range_val(s, start, w) + (if bit_at(s, start + w) {
            pow2(w)
        } else {
            0nat
        }),
    decreases w,
{
    if w == 0 {
        assert(pow2(0) == 1) by {
            vstd::arithmetic::power2::lemma2_to64();
        }
        assert(range_val(s, start + 1, 0) == 0);
        assert(range_val(s, start, 1) == (if bit_at(s, start) {
            1nat
        } else {
            0nat
        }) + 2 * range_val(s, start + 1, 0));
    } else {
        lemma_range_val_snoc(s, start + 1, (w - 1) as nat);
        lemma_pow2_unfold(w);
        assert(range_val(s, start, w + 1) == (if bit_at(s, start) {
            1nat
        } else {
            0nat
        }) + 2 * range_val(s, start + 1, w));
        assert(range_val(s, start, w) == (if bit_at(s, start) {
            1nat
        } else {
            0nat
        }) + 2 * range_val(s, start + 1, (w - 1) as nat));
    }
}

/// A range whose bits are all clear has value zero.
pub proof fn lemma_range_val_all_clear(s: Seq<u8>, start: int, w: nat)
    requires
        forall|i: int| 0 <= i < w ==> !(#[trigger] bit_at(s, start + i)),
    ensures
        range_val(s, start, w) == 0,
    decreases w,
{
    if w > 0 {
        assert(!bit_at(s, start + 0));
        assert forall|i: int| 0 <= i < w - 1 implies !(#[trigger] bit_at(s, start + 1 + i)) by {
            assert(!bit_at(s, start + (i + 1)));
        }
        lemma_range_val_all_clear(s, start + 1, (w - 1) as nat);
    }
}

/// Every bit of the zero byte is clear.
pub proof fn lemma_zero_byte_bits(k: int)
    requires
        0 <= k < 8,
    ensures
        !byte_bit(0u8, k),
{
    let sh = (7 - k) as u8;
    assert((0u8 >> sh) & 1 == 0) by (bit_vector);
}

/// If a range holds exactly the low `w` bits of `v`, and `v` fits in `w`
/// bits, the range's value is `v`.
pub proof fn lemma_range_val_of_u64(s: Seq<u8>, start: int, w: nat, v: u64)
    requires
        w <= 64,
        v < pow2(w),
        forall|i: u64| i < w ==> #[trigger] bit_at(s, start + i) == u64_bit(v, i),
    ensures
        range_val(s, start, w) == v,
    decreases w,
{
    if w == 0 {
        assert(pow2(0) == 1) by {
            vstd::arithmetic::power2::lemma2_to64();
        }
    } else {
        let v1 = v >> 1u64;
        assert(v == (if (v & 1) == 1 {
            1u64
        } else {
            0u64
        }) + 2 * (v >> 1u64)) by (bit_vector);
        assert(bit_at(s, start + 0u64) == u64_bit(v, 0));
        assert((v >> 0u64) & 1 == v & 1) by (bit_vector);
        assert forall|i: u64| i < w - 1 implies #[trigger] bit_at(s, start + 1 + i) == u64_bit(v1, i) by {
            assert(bit_at(s, start + ((i + 1) as u64)) == u64_bit(v, (i + 1) as u64));
            assert(((v >> 1u64) >> i) & 1 == (v >> ((i + 1) as u64)) & 1) by (bit_vector)
                requires
                    i < 63,
            ;
        }
        assert(v1 < pow2((w - 1) as nat)) by {
            assert(v >> 1u64 == v / 2) by (bit_vector);
            lemma_pow2_unfold(w);
        }
        lemma_range_val_of_u64(s, start + 1, (w - 1) as nat, v1);
    }
}

} // verus!
