//! Bit-range reads and writes on raw storage, and the `Specifier` face of
//! the accessors.

use bitfield::specifier::{get_field, set_field, Specifier, B};
use bitfield::storage::BitStorage;

#[test]
fn storage_starts_zero_filled() {
    let s = BitStorage::new(3);
    assert_eq!(s.len(), 3);
    for i in 0..3 {
        assert_eq!(s.byte(i), 0);
    }
}

#[test]
fn write_then_read_across_byte_boundary() {
    // Bits 6..9 straddle the byte boundary: LSB of the value lands at
    // global position 6 (bit 6 of byte 0, MSB-first), the last at global
    // position 8 (the MSB of byte 1).
    let mut s = BitStorage::new(2);
    s.write_bits(0b101, 6, 9);
    assert_eq!(s.read_bits(6, 9), 0b101);
    assert_eq!(s.byte(0), 0x02);
    assert_eq!(s.byte(1), 0x80);
}

#[test]
fn write_replaces_instead_of_merging() {
    // Writing a value with zeros over one with ones must clear them.
    let mut s = BitStorage::new(1);
    s.write_bits(0b1111, 2, 6);
    assert_eq!(s.read_bits(2, 6), 0b1111);
    s.write_bits(0b0110, 2, 6);
    assert_eq!(s.read_bits(2, 6), 0b0110);
    s.write_bits(0, 2, 6);
    assert_eq!(s.read_bits(2, 6), 0);
    assert_eq!(s.byte(0), 0x00);
}

#[test]
fn write_ignores_bits_beyond_the_range() {
    // Only the low `end - start` bits of the value are stored.
    let mut s = BitStorage::new(1);
    s.write_bits(u64::MAX, 0, 3);
    assert_eq!(s.read_bits(0, 3), 0b111);
    assert_eq!(s.byte(0), 0xE0);
}

#[test]
fn read_full_64_bit_range() {
    let mut s = BitStorage::new(8);
    s.write_bits(u64::MAX, 0, 64);
    assert_eq!(s.read_bits(0, 64), u64::MAX);
    s.write_bits(0x0123_4567_89AB_CDEF, 0, 64);
    assert_eq!(s.read_bits(0, 64), 0x0123_4567_89AB_CDEF);
}

#[test]
fn specifier_accessors_share_the_wire_format() {
    // The same one-byte record as the record-layout scenarios, through the
    // statically typed face: a: B<3>, b: bool, c: B<4>.
    let mut s = BitStorage::new(1);
    set_field::<B<3>>(&mut s, 0, 5);
    set_field::<bool>(&mut s, 3, true);
    set_field::<B<4>>(&mut s, 4, 10);
    assert_eq!(s.byte(0), 0xB5);
    assert_eq!(get_field::<B<3>>(&s, 0), 5);
    assert_eq!(get_field::<bool>(&s, 3), true);
    assert_eq!(get_field::<B<4>>(&s, 4), 10);
}

#[test]
fn specifier_conversions() {
    assert_eq!(<bool as Specifier>::bits(), 1);
    assert_eq!(<bool as Specifier>::to_u64(false), 0);
    assert_eq!(<bool as Specifier>::to_u64(true), 1);
    assert_eq!(<bool as Specifier>::from_u64(0), false);
    assert_eq!(<bool as Specifier>::from_u64(1), true);
    assert_eq!(<B<13> as Specifier>::bits(), 13);
    assert_eq!(<B<13> as Specifier>::to_u64(4096), 4096);
    assert_eq!(<B<13> as Specifier>::from_u64(4096), 4096);
}

#[test]
fn specifier_reset_is_idempotent() {
    let mut s = BitStorage::new(1);
    set_field::<B<3>>(&mut s, 0, 7);
    set_field::<B<3>>(&mut s, 0, 2);
    assert_eq!(get_field::<B<3>>(&s, 0), 2);
    assert_eq!(s.byte(0), 0b0100_0000);
}
