//! Type-level faces of the definition-time checks.
//!
//! The structural rules — a record's total bit width must be a multiple of
//! eight, and an enumerated discriminant must fit in its codec's bit width —
//! are validated at run time by [`crate::layout::RecordLayout::plan`] and
//! [`crate::codec::EnumCodec::new`]. Generated accessor code can instead
//! surface the same rules at compile time by projecting through the marker
//! types in this module: the projection only resolves when the check passes
//! (a remainder of zero, a comparison that came out true), so a violation is
//! a type error at the record's definition, before any instance exists.
//!
//! The markers carry no runtime behavior; nothing ever constructs a value
//! of them.

use vstd::prelude::*;

verus! {

/// The residue class 0 modulo 8; the one remainder a record's total bit
/// width may have.
pub enum ZeroMod8 {
    /// The marker itself; never constructed.
    Marker,
}

/// The residue class 1 modulo 8.
pub enum OneMod8 {
    /// The marker itself; never constructed.
    Marker,
}

/// The residue class 2 modulo 8.
pub enum TwoMod8 {
    /// The marker itself; never constructed.
    Marker,
}

/// The residue class 3 modulo 8.
pub enum ThreeMod8 {
    /// The marker itself; never constructed.
    Marker,
}

/// The residue class 4 modulo 8.
pub enum FourMod8 {
    /// The marker itself; never constructed.
    Marker,
}

/// The residue class 5 modulo 8.
pub enum FiveMod8 {
    /// The marker itself; never constructed.
    Marker,
}

/// The residue class 6 modulo 8.
pub enum SixMod8 {
    /// The marker itself; never constructed.
    Marker,
}

/// The residue class 7 modulo 8.
pub enum SevenMod8 {
    /// The marker itself; never constructed.
    Marker,
}

/// Maps an array length, reduced modulo 8 at the type level, to its residue
/// class marker.
pub trait ArrayOfMod {
    /// The residue-class marker for this array length.
    type ModType;
}

impl ArrayOfMod for [(); 0] {
    type ModType = ZeroMod8;
}

impl ArrayOfMod for [(); 1] {
    type ModType = OneMod8;
}

impl ArrayOfMod for [(); 2] {
    type ModType = TwoMod8;
}

impl ArrayOfMod for [(); 3] {
    type ModType = ThreeMod8;
}

impl ArrayOfMod for [(); 4] {
    type ModType = FourMod8;
}

impl ArrayOfMod for [(); 5] {
    type ModType = FiveMod8;
}

impl ArrayOfMod for [(); 6] {
    type ModType = SixMod8;
}

impl ArrayOfMod for [(); 7] {
    type ModType = SevenMod8;
}

/// Implemented only for the residue class a byte-aligned total width leaves:
/// projecting through `Check` fails to resolve for the seven others.
pub trait TotalSizeIsMultipleOfEightBits {
    /// Resolves to `()` when the total width is byte-aligned.
    type Check;
}

impl TotalSizeIsMultipleOfEightBits for ZeroMod8 {
    type Check = ();
}

/// The outcome of a type-level comparison that came out true.
pub enum True {
    /// The marker itself; never constructed.
    Marker,
}

/// The outcome of a type-level comparison that came out false.
pub enum False {
    /// The marker itself; never constructed.
    Marker,
}

/// Maps the result of a type-level comparison, encoded as an array length of
/// 0 or 1, to its truth marker.
pub trait EnumDiscriminant {
    /// [`True`] for length 1, [`False`] for length 0.
    type Marker;
}

impl EnumDiscriminant for [(); 1] {
    type Marker = True;
}

impl EnumDiscriminant for [(); 0] {
    type Marker = False;
}

/// Implemented only for [`True`]: projecting through `Check` fails to
/// resolve when a discriminant lies outside its codec's bit range.
pub trait DiscriminantInRange {
    /// Resolves to `()` when the discriminant is in range.
    type Check;
}

impl DiscriminantInRange for True {
    type Check = ();
}

} // verus!
