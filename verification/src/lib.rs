//! A bit-level record codec.
//!
//! A record is a fixed-size byte buffer carved into an ordered sequence of
//! sub-byte-width fields. This crate provides:
//!
//! * [`storage::BitStorage`]: the physical medium, a zero-initialized byte
//!   buffer read and written through arbitrary bit ranges that are free to
//!   cross byte boundaries;
//! * [`codec::Codec`]: the mapping between a field's raw bit pattern and its
//!   logical value (unsigned integers of width 1 to 64, booleans, and
//!   enumerated closed sets with an explicit discriminant table);
//! * [`layout::RecordLayout`]: the definition-time planner that assigns each
//!   field its bit offset as the prefix sum of the preceding widths and
//!   rejects layouts whose total width is not a multiple of eight;
//! * [`specifier::Specifier`]: the same codec capability as a polymorphic
//!   trait, for statically typed accessors over width markers and `bool`;
//! * [`laws`]: proofs of the record-level guarantees (round trip,
//!   non-interference of fields, zero initialization, idempotent re-set);
//! * [`checks`]: marker types through which generated code can surface the
//!   structural checks as compile-time errors.
//!
//! The wire format is fixed: fields occupy bit ranges in declaration order,
//! the first field at the lowest offset; within a byte, bit 0 is the most
//! significant bit; within a field's value, the lowest-offset storage bit is
//! the least significant bit of the value.

pub mod bits;
pub mod checks;
pub mod codec;
pub mod laws;
pub mod layout;
pub mod specifier;
pub mod storage;
