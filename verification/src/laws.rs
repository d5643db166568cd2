//! The universal laws of the codec, stated over the mathematical parser and
//! printer that every executable function here is proved against.

use vstd::prelude::*;

use crate::array::spec_parse_array;
use crate::field::{be_fixed, field_bytes, field_wf, lemma_be_fixed_val, spec_parse_field, FieldView};
use crate::num::be_val;
use crate::object::{pairs_bytes, pairs_wf, spec_parse_pairs};
use crate::types::NormalRionType;
use crate::window::{elems_bytes, elems_wf, spec_parse_elems};

verus! {

/// Round trip: decoding the canonical encoding of any well-formed field
/// restores exactly that field, consuming the whole encoding.
pub proof fn lemma_round_trip(f: FieldView)
    requires
        field_wf(f),
    ensures
        spec_parse_field(field_bytes(f)) == Some((f, field_bytes(f).len() as int)),
{
    crate::field::lemma_parse_field_of_encode(f, Seq::<u8>::empty());
    assert(field_bytes(f) + Seq::<u8>::empty() =~= field_bytes(f));
}

/// Canonical form: re-encoding what was decoded from a canonical encoding
/// reproduces that encoding byte for byte.
pub proof fn lemma_canonical_form(f: FieldView)
    requires
        field_wf(f),
    ensures
        spec_parse_field(field_bytes(f)) is Some,
        field_bytes(spec_parse_field(field_bytes(f))->Some_0.0) == field_bytes(f),
{
    lemma_round_trip(f);
}

/// Length precision: wherever a canonical encoding stands at the head of
/// the input, parsing advances by exactly the encoded field's size.  An
/// input whose length field carries leading zero bytes is not canonical and
/// makes the parser advance further than the field's own size.
pub proof fn lemma_length_precision(f: FieldView, rest: Seq<u8>)
    requires
        field_wf(f),
    ensures
        spec_parse_field(field_bytes(f) + rest) == Some((f, field_bytes(f).len() as int)),
{
    crate::field::lemma_parse_field_of_encode(f, rest);
}

/// Length precision, lower bound on every input: a successful parse never
/// advances by less than the parsed field's canonical size, nor past the
/// end of the input.
pub proof fn lemma_advance_bounds(s: Seq<u8>)
    requires
        spec_parse_field(s) is Some,
    ensures
        field_bytes(spec_parse_field(s)->Some_0.0).len() <= spec_parse_field(s)->Some_0.1
            <= s.len(),
{
    crate::field::lemma_parse_field_bounds(s);
}

/// Window closure, arrays: an array's children fill its payload window
/// exactly, so parsing the canonical window of any well-formed element
/// sequence consumes all of it and yields those elements.
pub proof fn lemma_window_closure(es: Seq<FieldView>)
    requires
        elems_wf(es),
    ensures
        spec_parse_elems(elems_bytes(es)) == Some(es),
{
    crate::window::lemma_parse_elems_of_encode(es);
}

/// Round trip for whole arrays: decoding a canonical array encoding
/// restores exactly the element sequence that was encoded.
pub proof fn lemma_array_decode_encode(es: Seq<FieldView>)
    requires
        elems_wf(es),
        elems_bytes(es).len() <= usize::MAX,
    ensures
        spec_parse_array(
            field_bytes(FieldView::Normal(NormalRionType::Array, elems_bytes(es))),
        ) matches Some((decoded, n)) && decoded == es,
{
    crate::array::lemma_array_round_trip(es);
}

/// Window closure and round trip for objects: an object's key-value pairs
/// fill its payload window exactly, and decoding the canonical encoding of
/// well-formed pairs restores them unchanged, key uniqueness included.
pub proof fn lemma_object_decode_encode(ps: Seq<(Seq<u8>, FieldView)>)
    requires
        pairs_wf(ps),
        pairs_bytes(ps).len() <= usize::MAX,
    ensures
        spec_parse_field(
            field_bytes(FieldView::Normal(NormalRionType::Object, pairs_bytes(ps))),
        ) == Some(
            (
                FieldView::Normal(NormalRionType::Object, pairs_bytes(ps)),
                field_bytes(
                    FieldView::Normal(NormalRionType::Object, pairs_bytes(ps)),
                ).len() as int,
            ),
        ),
        spec_parse_pairs(pairs_bytes(ps)) == Some(ps),
{
    lemma_round_trip(FieldView::Normal(NormalRionType::Object, pairs_bytes(ps)));
    crate::object::lemma_pairs_round_trip(ps);
}

/// Round trip for float payloads: the full-width big-endian form of a
/// float's bits reads back as exactly those bits, so float fields lose
/// nothing.
pub proof fn lemma_float_bits_round_trip(bits: u64)
    ensures
        be_val(be_fixed(bits as nat, 8)) == bits,
        bits <= u32::MAX ==> be_val(be_fixed(bits as nat, 4)) == bits,
{
    crate::num::lemma_pow256_8();
    lemma_be_fixed_val(bits as nat, 8);
    if bits <= u32::MAX {
        assert(crate::num::pow256(4) == 0x1_0000_0000) by {
            reveal_with_fuel(crate::num::pow256, 5);
        }
        lemma_be_fixed_val(bits as nat, 4);
    }
}

} // verus!
