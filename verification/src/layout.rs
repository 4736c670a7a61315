//! The layout planner and the generated-accessor layer.
//!
//! Given the ordered list of a record's field codecs, [`RecordLayout::plan`]
//! computes each field's bit offset as the prefix sum of the preceding
//! widths, computes the total bit width, and rejects — at definition time,
//! before any record instance can exist — a record whose total width is not
//! a multiple of eight. The planned layout is immutable, shared metadata;
//! each record instance owns only its [`BitStorage`] buffer, created
//! zero-filled by [`RecordLayout::new_record`] and accessed field by field
//! through [`RecordLayout::get`] and [`RecordLayout::set`].

use vstd::prelude::*;
use crate::bits::{bit_at, lemma_range_val_of_u64, range_val};
use crate::codec::{lemma_enum_table_covers, Codec, DecodeError, DefinitionError, Value};
use crate::storage::BitStorage;

verus! {

/// The sum of the declared fields' bit widths.
pub open spec fn total_width(cs: Seq<Codec>) -> nat
    decreases cs.len(),
{
    if cs.len() == 0 {
        0
    } else {
        total_width(cs.drop_last()) + cs.last().spec_bits()
    }
}

/// The bit offset of field `i`: the prefix sum of the widths before it.
pub open spec fn offset_of(cs: Seq<Codec>, i: int) -> nat
    recommends
        0 <= i <= cs.len(),
{
    total_width(cs.take(i))
}

/// Every declared codec is structurally valid.
pub open spec fn widths_ok(cs: Seq<Codec>) -> bool {
    forall|i: int| 0 <= i < cs.len() ==> (#[trigger] cs[i]).wf()
}

/// A field's offset grows by exactly its width: offsets are the prefix sums
/// of the declared widths.
pub proof fn lemma_offset_step(cs: Seq<Codec>, i: int)
    requires
        0 <= i < cs.len(),
    ensures
        offset_of(cs, i + 1) == offset_of(cs, i) + cs[i].spec_bits(),
{
    assert(cs.take(i + 1).drop_last() =~= cs.take(i));
    assert(cs.take(i + 1).last() == cs[i]);
}

/// Offsets never decrease along the declaration order.
pub proof fn lemma_offset_monotone(cs: Seq<Codec>, i: int, j: int)
    requires
        0 <= i <= j <= cs.len(),
    ensures
        offset_of(cs, i) <= offset_of(cs, j),
    decreases j - i,
{
    if i < j {
        lemma_offset_step(cs, j - 1);
        lemma_offset_monotone(cs, i, j - 1);
    }
}

/// The whole record is the prefix of length `len`: the offset past the last
/// field is the total width.
pub proof fn lemma_offset_total(cs: Seq<Codec>)
    ensures
        offset_of(cs, cs.len() as int) == total_width(cs),
{
    assert(cs.take(cs.len() as int) =~= cs);
}

/// Every field's bit range lies inside the record.
pub proof fn lemma_field_in_bounds(cs: Seq<Codec>, f: int)
    requires
        0 <= f < cs.len(),
    ensures
        offset_of(cs, f) + cs[f].spec_bits() <= total_width(cs),
    decreases cs.len(),
{
    lemma_offset_step(cs, f);
    lemma_offset_monotone(cs, f + 1, cs.len() as int);
    lemma_offset_total(cs);
}

/// Fields declared earlier end at or before later ones begin: the planned
/// bit ranges of two distinct fields are disjoint.
pub proof fn lemma_fields_disjoint(cs: Seq<Codec>, f: int, g: int)
    requires
        0 <= f < g < cs.len(),
    ensures
        offset_of(cs, f) + cs[f].spec_bits() <= offset_of(cs, g),
{
    lemma_offset_step(cs, f);
    lemma_offset_monotone(cs, f + 1, g);
}

/// A record type's planned layout: the definition-time, immutable metadata
/// shared by every instance of the record. [`RecordLayout::plan`] is the
/// only constructor, so a `RecordLayout` value always describes a
/// well-formed record: valid field widths and a byte-aligned total width.
#[derive(Debug)]
pub struct RecordLayout {
    codecs: Vec<Codec>,
    offsets: Vec<usize>,
    total_bits: usize,
}

impl RecordLayout {
    /// The record's field codecs, in declaration order.
    pub closed spec fn codecs(&self) -> Seq<Codec> {
        self.codecs@
    }

    /// The record's total width in bits.
    pub closed spec fn spec_total_bits(&self) -> nat {
        self.total_bits as nat
    }

    /// What every planned layout guarantees: valid field codecs and a total
    /// bit width that is the sum of the field widths and a multiple of
    /// eight.
    pub open spec fn wf(&self) -> bool {
        &&& widths_ok(self.codecs())
        &&& self.spec_total_bits() == total_width(self.codecs())
        &&& self.spec_total_bits() % 8 == 0
    }

    #[verifier::type_invariant]
    closed spec fn type_inv(&self) -> bool {
        &&& self.wf()
        &&& self.offsets@.len() == self.codecs@.len()
        &&& forall|i: int|
            0 <= i < self.offsets@.len() ==> (#[trigger] self.offsets@[i]) as nat == offset_of(
                self.codecs@,
                i,
            )
    }

    /// The raw bit pattern field `f`'s range holds in the byte buffer `s`.
    pub open spec fn field_raw(&self, s: Seq<u8>, f: int) -> nat {
        range_val(s, offset_of(self.codecs(), f) as int, self.codecs()[f].spec_bits())
    }

    /// The logical value field `f` decodes to from the byte buffer `s`, if
    /// any.
    pub open spec fn field_value(&self, s: Seq<u8>, f: int) -> Option<Value> {
        self.codecs()[f].spec_decode(self.field_raw(s, f) as u64)
    }

    /// Plans a record type's layout from its ordered field codecs: each
    /// field's `[start, end)` bit range is the prefix sum of the preceding
    /// widths, evaluated once per record type. Rejects, before any instance
    /// can be constructed, an unsigned field whose width lies outside 1 to
    /// 64, and a field list whose total width is not a multiple of eight.
    pub fn plan(codecs: Vec<Codec>) -> (r: Result<RecordLayout, DefinitionError>)
        requires
            64 * codecs@.len() <= usize::MAX,
        ensures
            r is Ok <==> widths_ok(codecs@) && total_width(codecs@) % 8 == 0,
            r matches Ok(l) ==> l.codecs() == codecs@ && l.wf() && l.spec_total_bits()
                == total_width(codecs@),
            r matches Err(e) ==> !(widths_ok(codecs@) && total_width(codecs@) % 8 == 0),
            widths_ok(codecs@) && total_width(codecs@) % 8 != 0 ==> r
                == Err::<RecordLayout, DefinitionError>(
                DefinitionError::TotalBitsNotByteAligned {
                    total_bits: total_width(codecs@) as usize,
                },
            ),
            !widths_ok(codecs@) ==> {
                &&& r matches Err(DefinitionError::WidthOutOfRange { index, width })
                &&& 0 <= index < codecs@.len()
                &&& codecs@[index as int] == (Codec::Unsigned { width })
                &&& !(1 <= width <= 64)
                &&& forall|j: int| 0 <= j < index ==> (#[trigger] codecs@[j]).wf()
            },
    {
        let n = codecs.len();
        let mut offsets: Vec<usize> = Vec::new();
        let mut total: usize = 0;
        let mut i: usize = 0;
        while i < n
            invariant
                i <= n,
                n == codecs@.len(),
                64 * n <= usize::MAX,
                offsets@.len() == i,
                total as nat == total_width(codecs@.take(i as int)),
                total <= 64 * i,
                forall|j: int| 0 <= j < i ==> (#[trigger] codecs@[j]).wf(),
                forall|j: int|
                    0 <= j < i ==> (#[trigger] offsets@[j]) as nat == offset_of(codecs@, j),
            decreases n - i,
        {
            let width: usize = match &codecs[i] {
                Codec::Unsigned { width } => {
                    if *width < 1 || *width > 64 {
                        return Err(DefinitionError::WidthOutOfRange { index: i, width: *width });
                    }
                    *width
                },
                Codec::Boolean => 1,
                Codec::Enumerated(e) => {
                    proof {
                        use_type_invariant(e);
                    }
                    e.bit_width()
                },
            };
            offsets.push(total);
            proof {
                lemma_offset_step(codecs@, i as int);
                assert(width as nat == codecs@[i as int].spec_bits());
            }
            total = total + width;
            i += 1;
        }
        proof {
            assert(codecs@.take(n as int) =~= codecs@);
        }
        if total % 8 != 0 {
            return Err(DefinitionError::TotalBitsNotByteAligned { total_bits: total });
        }
        Ok(RecordLayout { codecs, offsets, total_bits: total })
    }

    /// The number of declared fields.
    pub fn num_fields(&self) -> (r: usize)
        ensures
            r == self.codecs().len(),
    {
        self.codecs.len()
    }

    /// The record's total width in bits; always a multiple of eight.
    pub fn total_bit_width(&self) -> (r: usize)
        ensures
            r as nat == self.spec_total_bits(),
            r as nat == total_width(self.codecs()),
            r % 8 == 0,
    {
        proof {
            use_type_invariant(self);
        }
        self.total_bits
    }

    /// The record's size in bytes: exactly an eighth of the total bit width.
    pub fn byte_size(&self) -> (r: usize)
        ensures
            8 * r as nat == self.spec_total_bits(),
    {
        proof {
            use_type_invariant(self);
        }
        self.total_bits / 8
    }

    /// The bit offset of field `f`: the prefix sum of the preceding widths.
    pub fn offset(&self, f: usize) -> (r: usize)
        requires
            f < self.codecs().len(),
        ensures
            r as nat == offset_of(self.codecs(), f as int),
    {
        proof {
            use_type_invariant(self);
        }
        self.offsets[f]
    }

    /// The bit width of field `f`.
    pub fn field_bits(&self, f: usize) -> (r: usize)
        requires
            f < self.codecs().len(),
        ensures
            r as nat == self.codecs()[f as int].spec_bits(),
            1 <= r <= 64,
    {
        proof {
            use_type_invariant(self);
            assert(self.codecs@[f as int].wf());
        }
        self.codecs[f].bits()
    }

    /// A fresh record instance: `total_bits / 8` zero bytes. Every field of
    /// it decodes to its codec's zero value (see
    /// [`crate::laws::lemma_zero_initialization`]).
    pub fn new_record(&self) -> (r: BitStorage)
        ensures
            8 * r@.len() == self.spec_total_bits(),
            forall|i: int| 0 <= i < r@.len() ==> r@[i] == 0u8,
    {
        proof {
            use_type_invariant(self);
        }
        BitStorage::new(self.total_bits / 8)
    }

    /// Reads field `f`: decodes the field's bit range through its codec.
    /// Never fails: the range holds as many bits as the codec declares, and
    /// every pattern of that many bits decodes (for an enumerated codec
    /// because its discriminants cover the range exactly).
    pub fn get(&self, storage: &BitStorage, f: usize) -> (r: Result<Value, DecodeError>)
        requires
            f < self.codecs().len(),
            8 * storage@.len() == self.spec_total_bits(),
        ensures
            r is Ok,
            r matches Ok(v) ==> self.field_value(storage@, f as int) == Some(v),
    {
        proof {
            use_type_invariant(self);
            lemma_field_in_bounds(self.codecs@, f as int);
        }
        let off = self.offsets[f];
        let c = &self.codecs[f];
        let w = c.bits();
        let raw = storage.read_bits(off, off + w);
        let r = c.decode(raw);
        proof {
            match c {
                Codec::Unsigned { width } => {},
                Codec::Boolean => {
                    vstd::arithmetic::power2::lemma2_to64();
                },
                Codec::Enumerated(e) => {
                    use_type_invariant(e);
                    lemma_enum_table_covers(e.table(), raw);
                },
            }
        }
        r
    }

    /// Writes field `f`: encodes `value` through the field's codec and
    /// replaces the field's bit range with the encoding. Every bit outside
    /// the field's range is left unchanged, so setting one field never
    /// disturbs another; and the range is overwritten, not merged, so the
    /// previous value of the field is gone entirely.
    pub fn set(&self, storage: &mut BitStorage, f: usize, value: Value)
        requires
            f < self.codecs().len(),
            8 * old(storage)@.len() == self.spec_total_bits(),
            self.codecs()[f as int].value_ok(value),
        ensures
            final(storage)@.len() == old(storage)@.len(),
            self.field_raw(final(storage)@, f as int) == self.codecs()[f as int].spec_encode(
                value,
            ),
            forall|p: int|
                0 <= p < 8 * old(storage)@.len() && !(offset_of(self.codecs(), f as int) <= p
                    < offset_of(self.codecs(), f as int) + self.codecs()[f as int].spec_bits())
                    ==> #[trigger] bit_at(final(storage)@, p) == bit_at(old(storage)@, p),
    {
        proof {
            use_type_invariant(self);
            lemma_field_in_bounds(self.codecs@, f as int);
        }
        let off = self.offsets[f];
        let c = &self.codecs[f];
        let raw = c.encode(value);
        let w = c.bits();
        storage.write_bits(raw, off, off + w);
        proof {
            lemma_range_val_of_u64(storage@, off as int, w as nat, raw);
        }
    }
}

} // verus!
