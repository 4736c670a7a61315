//! The `Specifier` capability: the polymorphic face of a field codec.
//!
//! A specifier is a type standing for a field kind. It declares a bit width
//! and converts between the field's logical value type and a raw unsigned
//! 64-bit pattern. [`B<N>`](B) specifies an unsigned field of `N` bits and
//! `bool` specifies a one-bit boolean field; generated accessor code reads
//! and writes a field through [`get_field`] and [`set_field`], instantiated
//! with the field's specifier and its planned bit offset.

use vstd::prelude::*;
use vstd::arithmetic::power2::{lemma2_to64, pow2};
use crate::bits::{bit_at, lemma_range_val_of_u64, range_val};
use crate::storage::BitStorage;

verus! {

/// A field kind: a bit width, a logical value type, and the conversions
/// between the two. Encoding is total on the declared domain and always
/// fits in the declared width; decoding inverts it on that domain.
pub trait Specifier {
    /// The field's logical value type.
    type InnerType;

    /// The field's bit width.
    spec fn spec_bits() -> nat;

    /// Whether `value` is a valid value of the field.
    spec fn domain(value: Self::InnerType) -> bool;

    /// The raw pattern that encodes `value`.
    spec fn spec_to_u64(value: Self::InnerType) -> u64;

    /// The value that the raw pattern `raw` decodes to.
    spec fn spec_from_u64(raw: u64) -> Self::InnerType;

    /// The field's bit width.
    fn bits() -> (r: usize)
        ensures
            r as nat == Self::spec_bits(),
    ;

    /// Encodes a valid value into a raw pattern of at most
    /// [`Specifier::spec_bits`] bits; decoding the pattern gives the value
    /// back.
    fn to_u64(value: Self::InnerType) -> (r: u64)
        requires
            Self::domain(value),
        ensures
            r == Self::spec_to_u64(value),
            (r as nat) < pow2(Self::spec_bits()),
            Self::spec_from_u64(r) == value,
    ;

    /// Decodes a raw pattern of at most [`Specifier::spec_bits`] bits into a
    /// valid value.
    fn from_u64(raw: u64) -> (r: Self::InnerType)
        requires
            (raw as nat) < pow2(Self::spec_bits()),
        ensures
            r == Self::spec_from_u64(raw),
            Self::domain(r),
    ;
}

/// The specifier of an unsigned field of `N` bits, `1 <= N <= 64`: the
/// logical value is the raw pattern itself.
pub struct B<const N: usize>;

impl<const N: usize> Specifier for B<N> {
    type InnerType = u64;

    open spec fn spec_bits() -> nat {
        N as nat
    }

    open spec fn domain(value: u64) -> bool {
        (value as nat) < pow2(N as nat)
    }

    open spec fn spec_to_u64(value: u64) -> u64 {
        value
    }

    open spec fn spec_from_u64(raw: u64) -> u64 {
        raw
    }

    fn bits() -> (r: usize)
    {
        N
    }

    fn to_u64(value: u64) -> (r: u64)
    {
        value
    }

    fn from_u64(raw: u64) -> (r: u64)
    {
        raw
    }
}

impl Specifier for bool {
    type InnerType = bool;

    open spec fn spec_bits() -> nat {
        1
    }

    open spec fn domain(value: bool) -> bool {
        true
    }

    open spec fn spec_to_u64(value: bool) -> u64 {
        if value {
            1u64
        } else {
            0u64
        }
    }

    open spec fn spec_from_u64(raw: u64) -> bool {
        raw == 1
    }

    fn bits() -> (r: usize)
    {
        1
    }

    fn to_u64(value: bool) -> (r: u64)
    {
        proof {
            lemma2_to64();
        }
        match value {
            false => 0,
            true => 1,
        }
    }

    fn from_u64(raw: u64) -> (r: bool)
    {
        raw == 1
    }
}

/// The generated getter, in generic form: reads the field's bit range
/// `[start, start + BITS)` and decodes it through the field's specifier.
pub fn get_field<S: Specifier>(storage: &BitStorage, start: usize) -> (r: S::InnerType)
    requires
        1 <= S::spec_bits() <= 64,
        start + S::spec_bits() <= 8 * storage@.len(),
        start + S::spec_bits() <= usize::MAX,
    ensures
        r == S::spec_from_u64(range_val(storage@, start as int, S::spec_bits()) as u64),
        S::domain(r),
{
    let w = S::bits();
    let raw = storage.read_bits(start, start + w);
    S::from_u64(raw)
}

/// The generated setter, in generic form: encodes a valid value through the
/// field's specifier and replaces the bit range `[start, start + BITS)` with
/// the encoding, leaving every bit outside the range unchanged. Reading the
/// field back gives the value again, whatever the range held before.
pub fn set_field<S: Specifier>(storage: &mut BitStorage, start: usize, value: S::InnerType)
    requires
        1 <= S::spec_bits() <= 64,
        start + S::spec_bits() <= 8 * old(storage)@.len(),
        start + S::spec_bits() <= usize::MAX,
        S::domain(value),
    ensures
        final(storage)@.len() == old(storage)@.len(),
        range_val(final(storage)@, start as int, S::spec_bits()) == S::spec_to_u64(value),
        S::spec_from_u64(S::spec_to_u64(value)) == value,
        forall|p: int|
            0 <= p < 8 * old(storage)@.len() && !(start <= p < start + S::spec_bits())
                ==> #[trigger] bit_at(final(storage)@, p) == bit_at(old(storage)@, p),
{
    let w = S::bits();
    let raw = S::to_u64(value);
    storage.write_bits(raw, start, start + w);
    proof {
        lemma_range_val_of_u64(storage@, start as int, w as nat, raw);
    }
}

} // verus!
