//! Record-level scenarios: planning a layout, zero construction, and the
//! generated-accessor behavior through `RecordLayout::get` / `set`.

use bitfield::codec::{Codec, DefinitionError, EnumCodec, Value};
use bitfield::layout::RecordLayout;

fn abc_layout() -> RecordLayout {
    // a: width-3 unsigned, b: width-1 boolean, c: width-4 unsigned; 8 bits.
    RecordLayout::plan(vec![
        Codec::Unsigned { width: 3 },
        Codec::Boolean,
        Codec::Unsigned { width: 4 },
    ])
    .unwrap()
}

#[test]
fn plan_computes_prefix_sum_offsets() {
    let layout = abc_layout();
    assert_eq!(layout.num_fields(), 3);
    assert_eq!(layout.offset(0), 0);
    assert_eq!(layout.offset(1), 3);
    assert_eq!(layout.offset(2), 4);
    assert_eq!(layout.field_bits(0), 3);
    assert_eq!(layout.field_bits(1), 1);
    assert_eq!(layout.field_bits(2), 4);
    assert_eq!(layout.total_bit_width(), 8);
    assert_eq!(layout.byte_size(), 1);
}

#[test]
fn scenario_one_byte_record() {
    // After construction the single byte is zero; after a = 5 (binary 101),
    // a reads back 5 while b and c still read their zero values.
    let layout = abc_layout();
    let mut record = layout.new_record();
    assert_eq!(record.len(), 1);
    assert_eq!(record.byte(0), 0x00);
    layout.set(&mut record, 0, Value::Uint(5));
    assert_eq!(layout.get(&record, 0).unwrap(), Value::Uint(5));
    assert_eq!(layout.get(&record, 1).unwrap(), Value::Bool(false));
    assert_eq!(layout.get(&record, 2).unwrap(), Value::Uint(0));
    // Wire form: a's bits occupy global positions 0..3 (byte MSB first) and
    // receive a's value LSB first: 1,0,1 -> 0b1010_0000.
    assert_eq!(record.byte(0), 0xA0);
}

#[test]
fn scenario_full_byte_wire_format() {
    // a = 5, b = true, c = 10. Deriving the stored byte from the bit
    // mapping: positions 0..3 get a's bits LSB first (1,0,1), position 3
    // gets b (1), positions 4..8 get c = 1010 LSB first (0,1,0,1), and
    // position 0 is the byte's MSB: 0b1011_0101.
    let layout = abc_layout();
    let mut record = layout.new_record();
    layout.set(&mut record, 0, Value::Uint(5));
    layout.set(&mut record, 1, Value::Bool(true));
    layout.set(&mut record, 2, Value::Uint(10));
    assert_eq!(record.byte(0), 0xB5);
    assert_eq!(layout.get(&record, 0).unwrap(), Value::Uint(5));
    assert_eq!(layout.get(&record, 1).unwrap(), Value::Bool(true));
    assert_eq!(layout.get(&record, 2).unwrap(), Value::Uint(10));
}

#[test]
fn scenario_enumerated_field() {
    // Four variants North, East, South, West with discriminants 0..3: the
    // codec is 2 bits wide; get after set(South) returns South; the raw
    // pattern 0b11 decodes to West.
    let compass = EnumCodec::new(vec![0, 1, 2, 3]).unwrap();
    assert_eq!(compass.bit_width(), 2);
    let decoded = Codec::Enumerated(EnumCodec::new(vec![0, 1, 2, 3]).unwrap()).decode(0b11);
    assert_eq!(decoded.unwrap(), Value::Variant(3));
    let layout =
        RecordLayout::plan(vec![Codec::Enumerated(compass), Codec::Unsigned { width: 6 }])
            .unwrap();
    let mut record = layout.new_record();
    layout.set(&mut record, 0, Value::Variant(2));
    assert_eq!(layout.get(&record, 0).unwrap(), Value::Variant(2));
}

#[test]
fn scenario_structural_rejection() {
    // Widths summing to 13 are rejected at definition time; widths summing
    // to 16 are accepted and give a two-byte record.
    let rejected = RecordLayout::plan(vec![Codec::Unsigned { width: 13 }]);
    assert_eq!(
        rejected.unwrap_err(),
        DefinitionError::TotalBitsNotByteAligned { total_bits: 13 }
    );
    let accepted = RecordLayout::plan(vec![
        Codec::Unsigned { width: 13 },
        Codec::Unsigned { width: 3 },
    ])
    .unwrap();
    assert_eq!(accepted.byte_size(), 2);
    assert_eq!(accepted.new_record().len(), 2);
}

#[test]
fn plan_rejects_width_out_of_range() {
    assert_eq!(
        RecordLayout::plan(vec![Codec::Unsigned { width: 0 }]).unwrap_err(),
        DefinitionError::WidthOutOfRange { index: 0, width: 0 }
    );
    assert_eq!(
        RecordLayout::plan(vec![Codec::Unsigned { width: 8 }, Codec::Unsigned { width: 65 }])
            .unwrap_err(),
        DefinitionError::WidthOutOfRange { index: 1, width: 65 }
    );
}

#[test]
fn zero_initialization_all_kinds() {
    // Immediately after construction every field decodes to its codec's
    // zero value: 0, false, and the variant with discriminant 0 — here
    // deliberately not the first variant.
    let shuffled = EnumCodec::new(vec![2, 3, 0, 1]).unwrap();
    let layout = RecordLayout::plan(vec![
        Codec::Unsigned { width: 3 },
        Codec::Boolean,
        Codec::Enumerated(shuffled),
        Codec::Unsigned { width: 2 },
    ])
    .unwrap();
    let record = layout.new_record();
    assert_eq!(layout.get(&record, 0).unwrap(), Value::Uint(0));
    assert_eq!(layout.get(&record, 1).unwrap(), Value::Bool(false));
    assert_eq!(layout.get(&record, 2).unwrap(), Value::Variant(2));
    assert_eq!(layout.get(&record, 3).unwrap(), Value::Uint(0));
}

#[test]
fn round_trip_exhaustive_small_fields() {
    // Every representable value of every field decodes back to itself.
    let layout = abc_layout();
    for a in 0u64..8 {
        let mut record = layout.new_record();
        layout.set(&mut record, 0, Value::Uint(a));
        assert_eq!(layout.get(&record, 0).unwrap(), Value::Uint(a));
    }
    for c in 0u64..16 {
        let mut record = layout.new_record();
        layout.set(&mut record, 2, Value::Uint(c));
        assert_eq!(layout.get(&record, 2).unwrap(), Value::Uint(c));
    }
    let mut record = layout.new_record();
    layout.set(&mut record, 1, Value::Bool(true));
    assert_eq!(layout.get(&record, 1).unwrap(), Value::Bool(true));
    layout.set(&mut record, 1, Value::Bool(false));
    assert_eq!(layout.get(&record, 1).unwrap(), Value::Bool(false));
}

#[test]
fn non_interference_between_fields() {
    // Setting one field never changes the bits of any other field.
    let layout = abc_layout();
    let mut record = layout.new_record();
    layout.set(&mut record, 0, Value::Uint(7));
    layout.set(&mut record, 2, Value::Uint(15));
    layout.set(&mut record, 1, Value::Bool(true));
    assert_eq!(layout.get(&record, 0).unwrap(), Value::Uint(7));
    assert_eq!(layout.get(&record, 2).unwrap(), Value::Uint(15));
    layout.set(&mut record, 0, Value::Uint(2));
    assert_eq!(layout.get(&record, 1).unwrap(), Value::Bool(true));
    assert_eq!(layout.get(&record, 2).unwrap(), Value::Uint(15));
}

#[test]
fn idempotent_reset_clears_stale_ones() {
    // Re-setting a field replaces its old bits entirely: writing 0 over 7
    // leaves no stale ones, which an OR-only writer would.
    let layout = abc_layout();
    let mut record = layout.new_record();
    layout.set(&mut record, 0, Value::Uint(7));
    assert_eq!(record.byte(0), 0xE0);
    layout.set(&mut record, 0, Value::Uint(0));
    assert_eq!(layout.get(&record, 0).unwrap(), Value::Uint(0));
    assert_eq!(record.byte(0), 0x00);
    layout.set(&mut record, 0, Value::Uint(5));
    layout.set(&mut record, 0, Value::Uint(2));
    assert_eq!(layout.get(&record, 0).unwrap(), Value::Uint(2));
}

#[test]
fn field_crossing_byte_boundary() {
    // A 12-bit field starting at bit 4 spans both bytes; its value is laid
    // down LSB first from global position 4.
    let layout = RecordLayout::plan(vec![
        Codec::Unsigned { width: 4 },
        Codec::Unsigned { width: 12 },
    ])
    .unwrap();
    let mut record = layout.new_record();
    layout.set(&mut record, 1, Value::Uint(0xABC));
    assert_eq!(layout.get(&record, 1).unwrap(), Value::Uint(0xABC));
    assert_eq!(record.byte(0), 0x03);
    assert_eq!(record.byte(1), 0xD5);
    assert_eq!(layout.get(&record, 0).unwrap(), Value::Uint(0));
}

#[test]
fn full_width_sixty_four_bit_field() {
    let layout = RecordLayout::plan(vec![Codec::Unsigned { width: 64 }]).unwrap();
    assert_eq!(layout.byte_size(), 8);
    let mut record = layout.new_record();
    layout.set(&mut record, 0, Value::Uint(u64::MAX));
    assert_eq!(layout.get(&record, 0).unwrap(), Value::Uint(u64::MAX));
    for i in 0..8 {
        assert_eq!(record.byte(i), 0xFF);
    }
    layout.set(&mut record, 0, Value::Uint(0x0123_4567_89AB_CDEF));
    assert_eq!(
        layout.get(&record, 0).unwrap(),
        Value::Uint(0x0123_4567_89AB_CDEF)
    );
}

#[test]
fn get_reads_externally_supplied_bytes() {
    // A record received as raw bytes decodes by the same mapping: byte MSB
    // first, field value LSB first.
    let layout = abc_layout();
    let record = bitfield::storage::BitStorage::from_bytes(vec![0xB5]);
    assert_eq!(layout.get(&record, 0).unwrap(), Value::Uint(5));
    assert_eq!(layout.get(&record, 1).unwrap(), Value::Bool(true));
    assert_eq!(layout.get(&record, 2).unwrap(), Value::Uint(10));
}
