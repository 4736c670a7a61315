//! The record-level guarantees, stated and proved once for every layout,
//! every field, and every storage state.
//!
//! Each law is phrased over the spec-level views that the executable
//! functions' contracts use: [`RecordLayout::field_raw`] and
//! [`RecordLayout::field_value`] for what a field holds, and [`set_result`]
//! for the relation [`RecordLayout::set`] establishes between the storage
//! before and after a write.

use vstd::prelude::*;
use vstd::arithmetic::power2::{lemma_pow2_pos, lemma_pow2_strictly_increases, pow2};
use crate::bits::{bit_at, lemma_range_val_all_clear, lemma_range_val_congruent, lemma_zero_byte_bits};
use crate::codec::{
    enum_table_wf, lemma_enum_table_covers, lemma_table_index_of_unique, Codec, Value,
};
use crate::layout::{lemma_field_in_bounds, lemma_fields_disjoint, offset_of, RecordLayout};

verus! {

/// The relation that [`RecordLayout::set`] establishes between the storage
/// bytes before (`s_old`) and after (`s_new`) writing value `v` into field
/// `f`: the buffer keeps its size, the field's range holds exactly the
/// encoding of `v`, and every bit outside the field's range is unchanged.
pub open spec fn set_result(
    l: RecordLayout,
    s_old: Seq<u8>,
    s_new: Seq<u8>,
    f: int,
    v: Value,
) -> bool {
    &&& s_new.len() == s_old.len()
    &&& l.field_raw(s_new, f) == l.codecs()[f].spec_encode(v)
    &&& forall|p: int|
        0 <= p < 8 * s_old.len() && !(offset_of(l.codecs(), f) <= p < offset_of(l.codecs(), f)
            + l.codecs()[f].spec_bits()) ==> #[trigger] bit_at(s_new, p) == bit_at(s_old, p)
}

/// Law: a codec decodes its own encodings. For every value in the codec's
/// domain, decoding the encoded pattern gives the value back.
pub proof fn lemma_codec_round_trip(c: Codec, v: Value)
    requires
        c.wf(),
        c.value_ok(v),
    ensures
        c.spec_decode(c.spec_encode(v)) == Some(v),
{
    match c {
        Codec::Unsigned { width } => {},
        Codec::Boolean => {},
        Codec::Enumerated(e) => {
            let t = e.table();
            let i = v->Variant_0 as int;
            assert(t.contains(t[i]));
            lemma_table_index_of_unique(t, t[i], i);
        },
    }
}

/// Law (round trip): after `v` is written into field `f`, reading field `f`
/// decodes to exactly `v` — for every layout, every field, every value in
/// the field codec's domain, and whatever the storage held before.
pub proof fn lemma_round_trip(l: RecordLayout, s_old: Seq<u8>, s_new: Seq<u8>, f: int, v: Value)
    requires
        l.wf(),
        0 <= f < l.codecs().len(),
        l.codecs()[f].value_ok(v),
        set_result(l, s_old, s_new, f, v),
    ensures
        l.field_value(s_new, f) == Some(v),
{
    lemma_codec_round_trip(l.codecs()[f], v);
}

/// Law (non-interference): writing field `f` never changes the bits — and
/// hence never the raw pattern or the decoded value — of any other field
/// `g`.
pub proof fn lemma_non_interference(
    l: RecordLayout,
    s_old: Seq<u8>,
    s_new: Seq<u8>,
    f: int,
    g: int,
    v: Value,
)
    requires
        l.wf(),
        0 <= f < l.codecs().len(),
        0 <= g < l.codecs().len(),
        g != f,
        8 * s_old.len() == l.spec_total_bits(),
        set_result(l, s_old, s_new, f, v),
    ensures
        l.field_raw(s_new, g) == l.field_raw(s_old, g),
        l.field_value(s_new, g) == l.field_value(s_old, g),
{
    let cs = l.codecs();
    let off_f = offset_of(cs, f);
    let w_f = cs[f].spec_bits();
    let off_g = offset_of(cs, g);
    let w_g = cs[g].spec_bits();
    if f < g {
        lemma_fields_disjoint(cs, f, g);
    } else {
        lemma_fields_disjoint(cs, g, f);
    }
    lemma_field_in_bounds(cs, g);
    assert forall|i: int| 0 <= i < w_g implies #[trigger] bit_at(s_new, off_g + i) == bit_at(
        s_old,
        off_g + i,
    ) by {
        let p = off_g + i;
        assert(0 <= p < 8 * s_old.len());
        assert(!(off_f <= p < off_f + w_f));
    }
    lemma_range_val_congruent(s_new, s_old, off_g as int, w_g);
}

/// Law (size invariant): a well-formed layout's total bit width is the sum
/// of its field widths and a multiple of eight, and a storage buffer of the
/// planned size holds exactly `total_bits` bits.
pub proof fn lemma_size_invariant(l: RecordLayout, s: Seq<u8>)
    requires
        l.wf(),
        8 * s.len() == l.spec_total_bits(),
    ensures
        l.spec_total_bits() % 8 == 0,
        s.len() == l.spec_total_bits() / 8,
        8 * s.len() == crate::layout::total_width(l.codecs()),
{
}

/// Law (zero initialization): in all-zero storage — the state right after
/// construction — every field decodes to its codec's zero value: `0` for
/// unsigned fields, `false` for booleans, and the variant with discriminant
/// `0` for enumerated fields (a well-formed table always has one).
pub proof fn lemma_zero_initialization(l: RecordLayout, s: Seq<u8>, f: int)
    requires
        l.wf(),
        0 <= f < l.codecs().len(),
        8 * s.len() == l.spec_total_bits(),
        forall|i: int| 0 <= i < s.len() ==> s[i] == 0u8,
    ensures
        l.field_value(s, f) == Some(l.codecs()[f].zero_value()),
{
    let cs = l.codecs();
    let off = offset_of(cs, f);
    let w = cs[f].spec_bits();
    lemma_field_in_bounds(cs, f);
    assert forall|i: int| 0 <= i < w implies !(#[trigger] bit_at(s, off + i)) by {
        let p = off + i;
        assert(0 <= p / 8 < s.len()) by (nonlinear_arith)
            requires
                0 <= p < 8 * s.len(),
        ;
        assert(s[p / 8] == 0u8);
        lemma_zero_byte_bits(p % 8);
    }
    lemma_range_val_all_clear(s, off as int, w);
    match cs[f] {
        Codec::Unsigned { width } => {},
        Codec::Boolean => {},
        Codec::Enumerated(e) => {
            lemma_pow2_pos(e.bits());
            lemma_enum_table_covers(e.table(), 0u64);
            assert(e.table().contains(0u64));
        },
    }
}

/// Law (exact enumerated width): a well-formed enumerated codec over `2^k`
/// variants has a bit width of exactly `k`; no other width fits, because
/// powers of two are strictly increasing.
pub proof fn lemma_enum_bits_exact(t: Seq<u64>, bits: nat, k: nat)
    requires
        enum_table_wf(t, bits),
        pow2(k) == t.len(),
    ensures
        bits == k,
{
    if bits < k {
        lemma_pow2_strictly_increases(bits, k);
    } else if k < bits {
        lemma_pow2_strictly_increases(k, bits);
    }
}

/// Law (idempotent re-set): writing field `f` with `v1` and then with `v2`
/// leaves the field decoding to `v2`, for all `v1` and `v2` — the second
/// write replaces the first entirely, it does not merge with it — and
/// leaves every other field exactly as it started.
pub proof fn lemma_idempotent_reset(
    l: RecordLayout,
    s0: Seq<u8>,
    s1: Seq<u8>,
    s2: Seq<u8>,
    f: int,
    v1: Value,
    v2: Value,
)
    requires
        l.wf(),
        0 <= f < l.codecs().len(),
        l.codecs()[f].value_ok(v1),
        l.codecs()[f].value_ok(v2),
        8 * s0.len() == l.spec_total_bits(),
        set_result(l, s0, s1, f, v1),
        set_result(l, s1, s2, f, v2),
    ensures
        l.field_value(s2, f) == Some(v2),
        forall|g: int|
            0 <= g < l.codecs().len() && g != f ==> #[trigger] l.field_raw(s2, g) == l.field_raw(
                s0,
                g,
            ),
{
    lemma_round_trip(l, s1, s2, f, v2);
    assert forall|g: int| 0 <= g < l.codecs().len() && g != f implies #[trigger] l.field_raw(
        s2,
        g,
    ) == l.field_raw(s0, g) by {
        lemma_non_interference(l, s0, s1, f, g, v1);
        lemma_non_interference(l, s1, s2, f, g, v2);
    }
}

} // verus!
