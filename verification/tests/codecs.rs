//! Codec-level behavior: enumerated-codec validation, encode/decode, and
//! the runtime decode error.

use bitfield::codec::{Codec, DecodeError, DefinitionError, EnumCodec, Value};

#[test]
fn enum_bits_is_exact_log2() {
    // A codec over 2^k variants is exactly k bits wide.
    assert_eq!(EnumCodec::new(vec![0, 1]).unwrap().bit_width(), 1);
    assert_eq!(EnumCodec::new(vec![0, 1, 2, 3]).unwrap().bit_width(), 2);
    assert_eq!(
        EnumCodec::new(vec![0, 1, 2, 3, 4, 5, 6, 7]).unwrap().bit_width(),
        3
    );
    assert_eq!(
        EnumCodec::new((0u64..16).collect()).unwrap().bit_width(),
        4
    );
}

#[test]
fn enum_rejects_non_power_of_two_count() {
    assert_eq!(
        EnumCodec::new(vec![0, 1, 2]).unwrap_err(),
        DefinitionError::VariantCountNotPowerOfTwo { count: 3 }
    );
    assert_eq!(
        EnumCodec::new(vec![]).unwrap_err(),
        DefinitionError::VariantCountNotPowerOfTwo { count: 0 }
    );
    assert_eq!(
        EnumCodec::new(vec![0]).unwrap_err(),
        DefinitionError::VariantCountNotPowerOfTwo { count: 1 }
    );
    assert_eq!(
        EnumCodec::new((0u64..6).collect()).unwrap_err(),
        DefinitionError::VariantCountNotPowerOfTwo { count: 6 }
    );
}

#[test]
fn enum_rejects_discriminant_out_of_range() {
    // Four variants are 2 bits wide, so a discriminant of 5 cannot be
    // stored; the first offending variant is reported.
    assert_eq!(
        EnumCodec::new(vec![0, 1, 2, 5]).unwrap_err(),
        DefinitionError::DiscriminantOutOfRange { index: 3, discriminant: 5 }
    );
    assert_eq!(
        EnumCodec::new(vec![9, 1, 2, 5]).unwrap_err(),
        DefinitionError::DiscriminantOutOfRange { index: 0, discriminant: 9 }
    );
}

#[test]
fn enum_rejects_duplicate_discriminants() {
    assert_eq!(
        EnumCodec::new(vec![0, 1, 1, 3]).unwrap_err(),
        DefinitionError::DuplicateDiscriminant { discriminant: 1 }
    );
}

#[test]
fn enum_explicit_discriminants_round_trip() {
    // Explicit, non-contiguous declaration order: the table maps variant
    // index to discriminant and back.
    let codec = EnumCodec::new(vec![3, 0, 2, 1]).unwrap();
    assert_eq!(codec.variant_count(), 4);
    assert_eq!(codec.discriminant(0), 3);
    assert_eq!(codec.variant_of(3), Some(0));
    assert_eq!(codec.variant_of(0), Some(1));
    assert_eq!(codec.variant_of(2), Some(2));
    assert_eq!(codec.variant_of(1), Some(3));
    assert_eq!(codec.variant_of(4), None);
}

#[test]
fn codec_bits_per_kind() {
    assert_eq!(Codec::Unsigned { width: 7 }.bits(), 7);
    assert_eq!(Codec::Boolean.bits(), 1);
    let e = EnumCodec::new(vec![0, 1, 2, 3]).unwrap();
    assert_eq!(Codec::Enumerated(e).bits(), 2);
}

#[test]
fn encode_decode_unsigned() {
    let c = Codec::Unsigned { width: 5 };
    for v in 0u64..32 {
        assert_eq!(c.encode(Value::Uint(v)), v);
        assert_eq!(c.decode(v).unwrap(), Value::Uint(v));
    }
}

#[test]
fn encode_decode_boolean() {
    let c = Codec::Boolean;
    assert_eq!(c.encode(Value::Bool(false)), 0);
    assert_eq!(c.encode(Value::Bool(true)), 1);
    assert_eq!(c.decode(0).unwrap(), Value::Bool(false));
    assert_eq!(c.decode(1).unwrap(), Value::Bool(true));
}

#[test]
fn encode_decode_enumerated() {
    let c = Codec::Enumerated(EnumCodec::new(vec![3, 0, 2, 1]).unwrap());
    for i in 0..4usize {
        let raw = c.encode(Value::Variant(i));
        assert_eq!(c.decode(raw).unwrap(), Value::Variant(i));
    }
}

#[test]
fn decode_error_reports_the_pattern() {
    // A pattern outside the codec's range decodes to no value and is
    // reported, not aborted on: a boolean field only stores 0 and 1, and a
    // four-variant codec claims exactly the patterns 0..4.
    assert_eq!(Codec::Boolean.decode(2).unwrap_err(), DecodeError { raw: 2 });
    let c = Codec::Enumerated(EnumCodec::new(vec![0, 1, 2, 3]).unwrap());
    assert_eq!(c.decode(7).unwrap_err(), DecodeError { raw: 7 });
    assert!(c.decode(3).is_ok());
}
