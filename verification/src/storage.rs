//! The physical medium: a fixed-length byte buffer, read and written through
//! arbitrary contiguous bit ranges that are free to cross byte boundaries.

use vstd::prelude::*;
use vstd::arithmetic::power2::{pow2, lemma_pow2_unfold};
use vstd::bits::{lemma_u64_pow2_no_overflow, lemma_u64_shl_is_mul};
use crate::bits::{bit_at, byte_bit, lemma_range_val_snoc, range_val, u64_bit};

verus! {

/// Clearing bit `7 - sh` of a byte and OR-ing a fresh bit in leaves that bit
/// equal to `bit` and every other bit of the byte unchanged.
proof fn lemma_u8_write_bit(byte: u8, sh: u8, bit: u8)
    by (bit_vector)
    requires
        sh < 8,
        bit <= 1,
    ensures
        (((byte & !(1u8 << sh)) | (bit << sh)) >> sh) & 1 == bit,
        forall|sh2: u8|
            sh2 < 8 && sh2 != sh ==> ((((byte & !(1u8 << sh)) | (bit << sh)) >> sh2) & 1) == ((
            byte >> sh2) & 1),
{
}

/// A fixed-length byte buffer; the record's storage. It is created
/// zero-filled and mutated only through [`BitStorage::write_bits`]. Its view
/// is the byte sequence, which is also the wire form of the record.
pub struct BitStorage {
    data: Vec<u8>,
}

impl View for BitStorage {
    type V = Seq<u8>;

    closed spec fn view(&self) -> Seq<u8> {
        self.data@
    }
}

impl BitStorage {
    /// A zero-filled buffer of `len` bytes.
    pub fn new(len: usize) -> (r: BitStorage)
        ensures
            r@.len() == len,
            forall|i: int| 0 <= i < len ==> r@[i] == 0u8,
    {
        let mut data: Vec<u8> = Vec::new();
        let mut i: usize = 0;
        while i < len
            invariant
                i <= len,
                data@.len() == i,
                forall|j: int| 0 <= j < i ==> data@[j] == 0u8,
            decreases len - i,
        {
            data.push(0u8);
            i += 1;
        }
        BitStorage { data }
    }

    /// Wraps raw bytes, e.g. a record received over the wire.
    pub fn from_bytes(data: Vec<u8>) -> (r: BitStorage)
        ensures
            r@ == data@,
    {
        BitStorage { data }
    }

    /// The buffer's length in bytes.
    pub fn len(&self) -> (r: usize)
        ensures
            r == self@.len(),
    {
        self.data.len()
    }

    /// The byte at index `i`; the wire form of the record, byte by byte.
    pub fn byte(&self, i: usize) -> (r: u8)
        requires
            i < self@.len(),
        ensures
            r == self@[i as int],
    {
        self.data[i]
    }

    /// Reads the bit range `[start, end)`: the bit at global position
    /// `start + i` becomes bit `i` (least-significant first) of the result.
    pub fn read_bits(&self, start: usize, end: usize) -> (r: u64)
        requires
            start <= end,
            end - start <= 64,
            end <= 8 * self@.len(),
        ensures
            r as nat == range_val(self@, start as int, (end - start) as nat),
            (r as nat) < pow2((end - start) as nat),
    {
        let w = end - start;
        let mut value: u64 = 0;
        let mut i: usize = 0;
        proof {
            assert(pow2(0) == 1) by {
                vstd::arithmetic::power2::lemma2_to64();
            }
        }
        while i < w
            invariant
                i <= w,
                w <= 64,
                w == end - start,
                start + w <= 8 * self@.len(),
                value as nat == range_val(self@, start as int, i as nat),
                (value as nat) < pow2(i as nat),
            decreases w - i,
        {
            let index = start + i;
            proof {
                assert(index / 8 < self@.len()) by (nonlinear_arith)
                    requires
                        index < 8 * self@.len(),
                ;
            }
            let byte = self.data[index / 8];
            let sh: u8 = (7 - (index % 8)) as u8;
            let bit: u8 = (byte >> sh) & 1;
            let iu: u64 = i as u64;
            let add_val: u64 = (bit as u64) << iu;
            proof {
                let k: int = (index as int) % 8;
                assert((byte >> sh) & 1 < 2) by (bit_vector);
                assert(sh == (7 - k) as u8);
                assert((bit == 1) == byte_bit(byte, k));
                assert((index as int) / 8 == (index / 8) as int);
                assert(bit_at(self@, index as int) == (bit == 1));
                lemma_u64_pow2_no_overflow(iu as nat);
                lemma_u64_shl_is_mul(bit as u64, iu);
                lemma_u64_shl_is_mul(1u64, iu);
                assert(value | add_val == value + add_val) by (bit_vector)
                    requires
                        iu < 64,
                        bit <= 1,
                        add_val == (bit as u64) << iu,
                        value < (1u64 << iu),
                ;
                lemma_range_val_snoc(self@, start as int, i as nat);
                lemma_pow2_unfold((i + 1) as nat);
            }
            value = value | add_val;
            i += 1;
        }
        value
    }

    /// Writes the low `end - start` bits of `value` into the bit range
    /// `[start, end)`: bit `i` (least-significant first) of `value` becomes
    /// the bit at global position `start + i`. Each target bit is cleared
    /// before the new bit is inserted, so the write replaces the range's old
    /// contents; every bit outside the range is left unchanged. Bits of
    /// `value` at positions `end - start` and above are ignored.
    pub fn write_bits(&mut self, value: u64, start: usize, end: usize)
        requires
            start <= end,
            end - start <= 64,
            end <= 8 * old(self)@.len(),
        ensures
            final(self)@.len() == old(self)@.len(),
            forall|p: int|
                0 <= p < 8 * old(self)@.len() && !(start <= p < end) ==> #[trigger] bit_at(
                    final(self)@,
                    p,
                ) == bit_at(old(self)@, p),
            forall|j: u64|
                j < end - start ==> #[trigger] bit_at(final(self)@, start + j) == u64_bit(
                    value,
                    j,
                ),
    {
        let w = end - start;
        let ghost orig = self@;
        let mut i: usize = 0;
        while i < w
            invariant
                i <= w,
                w <= 64,
                w == end - start,
                start + w <= 8 * orig.len(),
                self@.len() == orig.len(),
                forall|p: int|
                    0 <= p < 8 * orig.len() && !(start <= p < start + i) ==> #[trigger] bit_at(
                        self@,
                        p,
                    ) == bit_at(orig, p),
                forall|j: u64|
                    j < i ==> #[trigger] bit_at(self@, start + j) == u64_bit(value, j),
            decreases w - i,
        {
            let index = start + i;
            proof {
                assert(index / 8 < self@.len()) by (nonlinear_arith)
                    requires
                        index < 8 * self@.len(),
                ;
            }
            let bidx = index / 8;
            let byte = self.data[bidx];
            let sh: u8 = (7 - (index % 8)) as u8;
            let iu: u64 = i as u64;
            let bit: u8 = ((value >> iu) & 1) as u8;
            let nb: u8 = (byte & !(1u8 << sh)) | (bit << sh);
            let ghost prev = self@;
            self.data[bidx] = nb;
            proof {
                let k: int = (index as int) % 8;
                assert((value >> iu) & 1 < 2) by (bit_vector);
                assert(sh == (7 - k) as u8);
                assert((index as int) / 8 == bidx as int);
                assert(self@ == prev.update(bidx as int, nb));
                lemma_u8_write_bit(byte, sh, bit);
                assert((bit == 1) == u64_bit(value, iu));
                assert(byte_bit(nb, k) == (bit == 1));
                // Bits in other bytes are untouched; bits elsewhere in this
                // byte keep their old value.
                assert forall|p: int|
                    0 <= p < 8 * orig.len() && p != index implies #[trigger] bit_at(self@, p)
                    == bit_at(prev, p) by {
                    assert(p == 8 * (p / 8) + p % 8);
                    assert(index as int == 8 * (bidx as int) + k);
                    if p / 8 == bidx as int {
                        let k2: int = p % 8;
                        assert(k2 != k);
                        let sh2: u8 = (7 - k2) as u8;
                        assert(sh2 != sh);
                        assert(((nb >> sh2) & 1) == ((byte >> sh2) & 1));
                        assert(p / 8 < orig.len()) by (nonlinear_arith)
                            requires
                                0 <= p < 8 * orig.len(),
                        ;
                    }
                }
                assert(bit_at(self@, index as int) == u64_bit(value, iu));
                assert forall|j: u64| j < i + 1 implies #[trigger] bit_at(self@, start + j)
                    == u64_bit(value, j) by {
                    if j < i {
                        assert(bit_at(prev, start + j) == u64_bit(value, j));
                        assert(start + j != index);
                    }
                }
            }
            i += 1;
        }
    }
}

} // verus!
