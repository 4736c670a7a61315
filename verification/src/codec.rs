//! Field codecs: the mapping between a field's raw bit pattern and its
//! logical value.
//!
//! A codec declares a bit width and converts between a raw unsigned 64-bit
//! pattern and the field's logical [`Value`]. The built-in codecs are
//! unsigned integers of width 1 to 64 (identity-encoded), booleans, and
//! enumerated closed sets with an explicit discriminant table built once at
//! definition time.

use vstd::prelude::*;
use vstd::arithmetic::power2::{
    lemma2_to64, lemma2_to64_rest, lemma_pow2_strictly_increases, lemma_pow2_unfold, pow2,
};
use vstd::set_lib::{lemma_int_range, lemma_len_subset, lemma_subset_equality, set_int_range};

verus! {

/// A field's logical value.
#[derive(Clone, Copy, Debug, PartialEq, Eq, Structural)]
pub enum Value {
    /// The value of an unsigned-integer field.
    Uint(u64),
    /// The value of a boolean field.
    Bool(bool),
    /// The value of an enumerated field: the index of the variant in the
    /// codec's declaration-order table.
    Variant(usize),
}

/// The runtime (value) error: a raw bit pattern that no value of the codec
/// encodes to. It can only arise from storage that was filled outside the
/// accessor interface, never from normal accessor use.
#[derive(Clone, Copy, Debug, PartialEq, Eq, Structural)]
pub struct DecodeError {
    /// The bit pattern that decodes to no value.
    pub raw: u64,
}

/// A definition-time (structural) error: the field list or enumerated codec
/// is malformed, and the record type must not become usable at all.
#[derive(Clone, Copy, Debug, PartialEq, Eq, Structural)]
pub enum DefinitionError {
    /// An unsigned field's width lies outside 1 to 64.
    WidthOutOfRange { index: usize, width: usize },
    /// The record's total bit width is not a multiple of eight.
    TotalBitsNotByteAligned { total_bits: usize },
    /// An enumerated codec was declared over a variant count that is not a
    /// power of two with at least two variants.
    VariantCountNotPowerOfTwo { count: usize },
    /// A variant's discriminant does not fit in the codec's bit width.
    DiscriminantOutOfRange { index: usize, discriminant: u64 },
    /// Two variants share one discriminant.
    DuplicateDiscriminant { discriminant: u64 },
}

/// Whether `n` is a legal variant count for an enumerated codec: an exact
/// power of two, with at least two variants (so the bit width is at least
/// one and no codepoint is wasted).
pub open spec fn valid_variant_count(n: nat) -> bool {
    exists|k: nat| 1 <= k && pow2(k) == n
}

/// Every discriminant in `t` fits in the codec's bit width, i.e. is below
/// the variant count.
pub open spec fn all_in_range(t: Seq<u64>) -> bool {
    forall|i: int| 0 <= i < t.len() ==> (#[trigger] t[i] as nat) < t.len()
}

/// No two variants share a discriminant.
pub open spec fn all_distinct(t: Seq<u64>) -> bool {
    forall|i: int, j: int| 0 <= i < j < t.len() ==> t[i] != t[j]
}

/// Well-formedness of an enumerated codec's discriminant table: `2^bits`
/// variants, each discriminant in range, no duplicates. Pairwise-distinct
/// discriminants below the variant count necessarily cover `0..2^bits`
/// exactly ([`lemma_enum_table_covers`]), so an in-range pattern always
/// names a variant.
pub open spec fn enum_table_wf(t: Seq<u64>, bits: nat) -> bool {
    &&& 1 <= bits <= 63
    &&& pow2(bits) == t.len()
    &&& all_in_range(t)
    &&& all_distinct(t)
}

/// Pigeonhole: `n` pairwise-distinct discriminants below `n` claim every
/// pattern in `0..n`, so a well-formed table leaves no in-range pattern
/// unnamed.
pub proof fn lemma_enum_table_covers(t: Seq<u64>, d: u64)
    requires
        all_in_range(t),
        all_distinct(t),
        (d as nat) < t.len(),
    ensures
        exists|i: int| 0 <= i < t.len() && t[i] == d,
{
    let n = t.len() as int;
    let ts = t.map_values(|x: u64| x as int);
    assert(ts.no_duplicates()) by {
        assert forall|i: int, j: int| 0 <= i < ts.len() && 0 <= j < ts.len() && i != j implies ts[i]
            != ts[j] by {
            if i < j {
                assert(t[i] != t[j]);
            } else {
                assert(t[j] != t[i]);
            }
        }
    }
    ts.unique_seq_to_set();
    let s = ts.to_set();
    let r = set_int_range(0, n);
    lemma_int_range(0, n);
    assert(s.subset_of(r)) by {
        assert forall|x: int| s.contains(x) implies r.contains(x) by {
            let i = choose|i: int| 0 <= i < ts.len() && ts[i] == x;
            assert((t[i] as nat) < t.len());
        }
    }
    lemma_len_subset(s, r);
    lemma_subset_equality(s, r);
    assert(r.contains(d as int));
    assert(ts.contains(d as int));
    let i = choose|i: int| 0 <= i < ts.len() && ts[i] == d as int;
    assert(t[i] == d);
}

/// An enumerated (closed-set) field codec: an ordered table of variant
/// discriminants, resolved once at definition time. A variant is identified
/// by its index in declaration order; the table entry is the discriminant
/// stored on the wire.
///
/// [`EnumCodec::new`] is the only constructor and rejects malformed tables,
/// so every value of this type satisfies [`enum_table_wf`]. In particular
/// discriminants are required to be unique; together with the range check
/// this forces them to cover `0..2^bits` exactly, so neither gaps nor
/// duplicates are tolerated.
#[derive(Debug)]
pub struct EnumCodec {
    discriminants: Vec<u64>,
    bits: usize,
}

impl EnumCodec {
    /// The discriminant table, in variant declaration order.
    pub closed spec fn table(&self) -> Seq<u64> {
        self.discriminants@
    }

    /// The codec's bit width: the exact base-two logarithm of the variant
    /// count.
    pub closed spec fn bits(&self) -> nat {
        self.bits as nat
    }

    #[verifier::type_invariant]
    pub open spec fn type_inv(&self) -> bool {
        enum_table_wf(self.table(), self.bits())
    }

    /// Builds the codec for an enumerated field type from its discriminants
    /// in variant declaration order, validating the definition-time rules:
    /// the variant count must be a power of two (at least two), every
    /// discriminant must fit in the resulting bit width, and no two variants
    /// may share a discriminant.
    pub fn new(discriminants: Vec<u64>) -> (r: Result<EnumCodec, DefinitionError>)
        ensures
            r is Ok <==> valid_variant_count(discriminants@.len()) && all_in_range(discriminants@)
                && all_distinct(discriminants@),
            r matches Ok(c) ==> c.table() == discriminants@ && enum_table_wf(c.table(), c.bits())
                && pow2(c.bits()) == discriminants@.len(),
            !valid_variant_count(discriminants@.len()) <==> r == Err::<EnumCodec, DefinitionError>(
                DefinitionError::VariantCountNotPowerOfTwo { count: discriminants.len() },
            ),
            valid_variant_count(discriminants@.len()) && !all_in_range(discriminants@) ==> {
                &&& r matches Err(DefinitionError::DiscriminantOutOfRange { index, discriminant })
                &&& 0 <= index < discriminants@.len()
                &&& discriminant == discriminants@[index as int]
                &&& (discriminant as nat) >= discriminants@.len()
                &&& forall|i: int|
                    0 <= i < index ==> (#[trigger] discriminants@[i] as nat) < discriminants@.len()
            },
            valid_variant_count(discriminants@.len()) && all_in_range(discriminants@)
                && !all_distinct(discriminants@) ==> {
                &&& r matches Err(DefinitionError::DuplicateDiscriminant { discriminant })
                &&& exists|i: int, j: int|
                    0 <= i < j < discriminants@.len() && discriminants@[i] == discriminants@[j]
                        && discriminants@[j] == discriminant
            },
    {
        let n = discriminants.len();
        let n64 = n as u64;
        let mut k: u64 = 0;
        let mut p: u64 = 1;
        proof {
            lemma2_to64();
        }
        while p < n64 && k < 63
            invariant
                k <= 63,
                p as nat == pow2(k as nat),
                forall|j: nat| j < k ==> pow2(j) < n64,
            decreases 63 - k,
        {
            proof {
                lemma2_to64();
                lemma2_to64_rest();
                if (k as nat) < 62 {
                    lemma_pow2_strictly_increases(k as nat, 62);
                }
                lemma_pow2_unfold((k + 1) as nat);
                assert forall|j: nat| j < k + 1 implies pow2(j) < n64 by {
                    if j < k {
                    } else {
                        assert(pow2(j) == p);
                    }
                }
            }
            p = p * 2;
            k = k + 1;
        }
        if !(p == n64 && k >= 1) {
            proof {
                lemma2_to64();
                lemma2_to64_rest();
                assert forall|kk: nat| 1 <= kk implies pow2(kk) != n64 by {
                    if kk < k {
                        assert(pow2(kk) < n64);
                    } else if kk <= 63 {
                        if (k as nat) < kk {
                            lemma_pow2_strictly_increases(k as nat, kk);
                        }
                        if p < n64 {
                            // the loop stopped at k == 63 with every power
                            // of two up to 2^63 below the count
                            assert(k == 63);
                            if kk < 63 {
                                lemma_pow2_strictly_increases(kk, 63);
                            }
                            assert(pow2(kk) <= pow2(63));
                        } else {
                            // p > n64 or the count is 1
                            assert(pow2(kk) >= pow2(k as nat));
                        }
                    } else {
                        if kk > 64 {
                            lemma_pow2_strictly_increases(64, kk);
                        }
                        assert(pow2(64) == 0x10000000000000000);
                        assert(pow2(kk) >= 0x10000000000000000);
                    }
                }
            }
            return Err(DefinitionError::VariantCountNotPowerOfTwo { count: n });
        }
        proof {
            assert(valid_variant_count(discriminants@.len())) by {
                assert(1 <= k as nat && pow2(k as nat) == discriminants@.len());
            }
        }
        let bits = k as usize;
        let mut i: usize = 0;
        while i < n
            invariant
                i <= n,
                n == discriminants@.len(),
                n64 == n as u64,
                valid_variant_count(discriminants@.len()),
                forall|j: int| 0 <= j < i ==> (#[trigger] discriminants@[j] as nat) < n,
            decreases n - i,
        {
            if discriminants[i] >= n64 {
                return Err(
                    DefinitionError::DiscriminantOutOfRange {
                        index: i,
                        discriminant: discriminants[i],
                    },
                );
            }
            i += 1;
        }
        let mut a: usize = 1;
        while a < n
            invariant
                a <= n || n == 0,
                n == discriminants@.len(),
                valid_variant_count(discriminants@.len()),
                all_in_range(discriminants@),
                forall|x: int, y: int| 0 <= x < y < a ==> discriminants@[x] != discriminants@[y],
            decreases n - a,
        {
            let mut b: usize = 0;
            while b < a
                invariant
                    b <= a < n,
                    n == discriminants@.len(),
                    valid_variant_count(discriminants@.len()),
                    all_in_range(discriminants@),
                    forall|x: int| 0 <= x < b ==> discriminants@[x] != discriminants@[a as int],
                decreases a - b,
            {
                if discriminants[b] == discriminants[a] {
                    return Err(
                        DefinitionError::DuplicateDiscriminant { discriminant: discriminants[a] },
                    );
                }
                b += 1;
            }
            a += 1;
        }
        Ok(EnumCodec { discriminants, bits })
    }

    /// The codec's bit width.
    pub fn bit_width(&self) -> (r: usize)
        ensures
            r as nat == self.bits(),
            1 <= r <= 63,
    {
        proof {
            use_type_invariant(self);
        }
        self.bits
    }

    /// The number of variants, `2^bits`.
    pub fn variant_count(&self) -> (r: usize)
        ensures
            r == self.table().len(),
            r as nat == pow2(self.bits()),
    {
        proof {
            use_type_invariant(self);
        }
        self.discriminants.len()
    }

    /// The discriminant of the variant at `index` in declaration order.
    pub fn discriminant(&self, index: usize) -> (r: u64)
        requires
            index < self.table().len(),
        ensures
            r == self.table()[index as int],
            (r as nat) < self.table().len(),
    {
        proof {
            use_type_invariant(self);
        }
        self.discriminants[index]
    }

    /// The index of the variant whose discriminant is `raw`, if any; the
    /// inverse of [`EnumCodec::discriminant`]. Every pattern below the
    /// variant count names exactly one variant.
    pub fn variant_of(&self, raw: u64) -> (r: Option<usize>)
        ensures
            r matches Some(i) ==> i < self.table().len() && self.table()[i as int] == raw,
            r is None <==> !self.table().contains(raw),
            (raw as nat) < self.table().len() ==> r is Some,
    {
        proof {
            use_type_invariant(self);
        }
        let n = self.discriminants.len();
        let mut i: usize = 0;
        while i < n
            invariant
                i <= n,
                n == self.table().len(),
                forall|j: int| 0 <= j < i ==> self.table()[j] != raw,
            decreases n - i,
        {
            if self.discriminants[i] == raw {
                return Some(i);
            }
            i += 1;
        }
        proof {
            use_type_invariant(self);
            if (raw as nat) < self.table().len() {
                lemma_enum_table_covers(self.table(), raw);
            }
            assert(!self.table().contains(raw));
        }
        None
    }
}

/// A field codec: declares a bit width and converts between a raw bit
/// pattern and the field's logical value.
#[derive(Debug)]
pub enum Codec {
    /// An unsigned-integer field of the given bit width, 1 to 64. Values are
    /// identity-encoded: the logical value is the raw pattern.
    Unsigned { width: usize },
    /// A one-bit boolean field: `false` is stored as 0, `true` as 1.
    Boolean,
    /// An enumerated field: the stored pattern is the discriminant of the
    /// variant, looked up in the codec's table.
    Enumerated(EnumCodec),
}

impl Codec {
    /// The field's bit width.
    pub open spec fn spec_bits(&self) -> nat {
        match self {
            Codec::Unsigned { width } => *width as nat,
            Codec::Boolean => 1,
            Codec::Enumerated(e) => e.bits(),
        }
    }

    /// Structural validity. For unsigned fields the width must lie in 1 to
    /// 64; enumerated codecs carry a well-formed table (their constructor
    /// admits no other).
    pub open spec fn wf(&self) -> bool {
        match self {
            Codec::Unsigned { width } => 1 <= *width <= 64,
            Codec::Boolean => true,
            Codec::Enumerated(e) => enum_table_wf(e.table(), e.bits()),
        }
    }

    /// Whether `v` lies in this codec's value domain: the right kind of
    /// value, within the representable range.
    pub open spec fn value_ok(&self, v: Value) -> bool {
        match self {
            Codec::Unsigned { width } => v matches Value::Uint(x) && (x as nat) < pow2(
                *width as nat,
            ),
            Codec::Boolean => v is Bool,
            Codec::Enumerated(e) => v matches Value::Variant(i) && i < e.table().len(),
        }
    }

    /// The raw pattern that encodes `v`.
    pub open spec fn spec_encode(&self, v: Value) -> u64
        recommends
            self.value_ok(v),
    {
        match self {
            Codec::Unsigned { width } => v->Uint_0,
            Codec::Boolean => if v == Value::Bool(true) {
                1u64
            } else {
                0u64
            },
            Codec::Enumerated(e) => e.table()[v->Variant_0 as int],
        }
    }

    /// The value that the raw pattern `raw` decodes to, if any. Unsigned
    /// patterns decode to themselves; a boolean field decodes 0 and 1; an
    /// enumerated field decodes exactly the patterns in its table.
    pub open spec fn spec_decode(&self, raw: u64) -> Option<Value> {
        match self {
            Codec::Unsigned { width } => Some(Value::Uint(raw)),
            Codec::Boolean => if raw == 0 {
                Some(Value::Bool(false))
            } else if raw == 1 {
                Some(Value::Bool(true))
            } else {
                None
            },
            Codec::Enumerated(e) => if e.table().contains(raw) {
                Some(Value::Variant(table_index_of(e.table(), raw) as usize))
            } else {
                None
            },
        }
    }

    /// The value stored by the all-zero bit pattern: 0, `false`, or the
    /// variant whose discriminant is 0 (a well-formed table always has one).
    pub open spec fn zero_value(&self) -> Value
        recommends
            self.wf(),
    {
        match self {
            Codec::Unsigned { width } => Value::Uint(0),
            Codec::Boolean => Value::Bool(false),
            Codec::Enumerated(e) => Value::Variant(table_index_of(e.table(), 0) as usize),
        }
    }

    /// The field's bit width.
    pub fn bits(&self) -> (r: usize)
        requires
            self.wf(),
        ensures
            r as nat == self.spec_bits(),
            1 <= r <= 64,
    {
        match self {
            Codec::Unsigned { width } => *width,
            Codec::Boolean => 1,
            Codec::Enumerated(e) => e.bit_width(),
        }
    }

    /// Encodes a logical value into the raw pattern stored on the wire. The
    /// result always fits in the codec's bit width.
    pub fn encode(&self, v: Value) -> (r: u64)
        requires
            self.value_ok(v),
        ensures
            r == self.spec_encode(v),
            (r as nat) < pow2(self.spec_bits()),
    {
        match self {
            Codec::Unsigned { width } => match v {
                Value::Uint(x) => x,
                _ => unreached(),
            },
            Codec::Boolean => {
                proof {
                    lemma2_to64();
                }
                match v {
                    Value::Bool(true) => 1,
                    Value::Bool(false) => 0,
                    _ => unreached(),
                }
            },
            Codec::Enumerated(e) => match v {
                Value::Variant(i) => {
                    proof {
                        use_type_invariant(e);
                    }
                    e.discriminant(i)
                },
                _ => unreached(),
            },
        }
    }

    /// Decodes a raw bit pattern into the logical value that encodes to it;
    /// fails exactly when no value of this codec does. Through the record
    /// accessors the pattern always comes from the field's own bit range, so
    /// decoding there never fails; a failure can only arise from a pattern
    /// supplied from outside, e.g. corrupted storage.
    pub fn decode(&self, raw: u64) -> (r: Result<Value, DecodeError>)
        ensures
            (r is Ok) == (self.spec_decode(raw) is Some),
            r matches Ok(v) ==> self.spec_decode(raw) == Some(v),
            r matches Err(e) ==> e == (DecodeError { raw }) && self.spec_decode(raw) is None,
    {
        match self {
            Codec::Unsigned { width } => Ok(Value::Uint(raw)),
            Codec::Boolean => {
                if raw == 0 {
                    Ok(Value::Bool(false))
                } else if raw == 1 {
                    Ok(Value::Bool(true))
                } else {
                    Err(DecodeError { raw })
                }
            },
            Codec::Enumerated(e) => {
                proof {
                    use_type_invariant(e);
                }
                match e.variant_of(raw) {
                    Some(i) => {
                        proof {
                            lemma_table_index_of_unique(e.table(), raw, i as int);
                        }
                        Ok(Value::Variant(i))
                    },
                    None => Err(DecodeError { raw }),
                }
            },
        }
    }
}

/// The index of the variant whose discriminant is `raw`; meaningful when the
/// table contains `raw`, and unique when the table has no duplicates.
pub open spec fn table_index_of(t: Seq<u64>, raw: u64) -> int {
    choose|i: int| 0 <= i < t.len() && t[i] == raw
}

/// In a duplicate-free table, any index holding `raw` is the index that
/// [`table_index_of`] picks.
pub proof fn lemma_table_index_of_unique(t: Seq<u64>, raw: u64, i: int)
    requires
        all_distinct(t),
        0 <= i < t.len(),
        t[i] == raw,
    ensures
        table_index_of(t, raw) == i,
{
    assert(t.contains(raw));
    let j = table_index_of(t, raw);
    assert(0 <= j < t.len() && t[j] == raw);
    if i < j {
        assert(t[i] != t[j]);
    } else if j < i {
        assert(t[j] != t[i]);
    }
}

} // verus!
