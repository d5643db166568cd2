//! The array container: an ordered, heterogeneous sequence of fields,
//! length-framed as a normal field with type nibble 0xA.

use vstd::prelude::*;

use crate::errors::DeserializeError;
use crate::field::{
    field_bytes, spec_parse_field, spec_parse_field_err, FieldView, NormalField, RionField,
};
use crate::types::{NormalRionType, RionFieldType};
use crate::window::{
    elems_bytes, elems_wf, encode_field_seq, parse_field_seq, spec_parse_elems,
    spec_parse_elems_err,
};

verus! {

/// An ordered sequence of RION values.
#[derive(Debug, PartialEq)]
pub struct RionArray {
    pub elements: Vec<RionField>,
}

impl View for RionArray {
    type V = Seq<FieldView>;

    open spec fn view(&self) -> Seq<FieldView> {
        self.elements@.map_values(|f: RionField| f@)
    }
}

/// The array parser at the head of `s`: the element sequence and the bytes
/// consumed.  Accepts exactly an array field whose window parses as a field
/// sequence; the window is consumed in full.
pub open spec fn spec_parse_array(s: Seq<u8>) -> Option<(Seq<FieldView>, int)> {
    match spec_parse_field(s) {
        None => None,
        Some((f, n)) => match f {
            FieldView::Normal(NormalRionType::Array, w) => match spec_parse_elems(w) {
                None => None,
                Some(es) => Some((es, n)),
            },
            _ => None,
        },
    }
}

impl RionArray {
    /// Every element is well formed.
    pub open spec fn wf(&self) -> bool {
        elems_wf(self@)
    }

    /// The canonical wire bytes of this array.
    pub open spec fn spec_bytes(&self) -> Seq<u8> {
        field_bytes(FieldView::Normal(NormalRionType::Array, elems_bytes(self@)))
    }

    /// An empty array.
    pub fn new() -> (r: RionArray)
        ensures
            r@ == Seq::<FieldView>::empty(),
            r.wf(),
    {
        RionArray { elements: Vec::new() }
    }

    /// Appends one element.
    pub fn add_element(&mut self, element: RionField)
        requires
            element.wf(),
        ensures
            final(self)@ == old(self)@.push(element@),
            old(self).wf() ==> final(self).wf(),
    {
        self.elements.push(element);
        proof {
            assert(final(self)@ =~= old(self)@.push(element@));
        }
    }

    /// Parses an array field from the head of `data` and returns the
    /// unconsumed tail.  Succeeds if and only if the mathematical array
    /// parser accepts.
    pub fn parse(data: &[u8]) -> (r: Result<(RionArray, &[u8]), DeserializeError>)
        ensures
            match r {
                Ok((arr, rest)) => {
                    &&& spec_parse_array(data@) is Some
                    &&& arr@ == spec_parse_array(data@)->Some_0.0
                    &&& arr.wf()
                    &&& rest@ == data@.subrange(
                        spec_parse_array(data@)->Some_0.1,
                        data@.len() as int,
                    )
                },
                Err(e) => {
                    &&& spec_parse_array(data@) is None
                    &&& match spec_parse_field(data@) {
                        None => e == spec_parse_field_err(data@),
                        Some((f, n)) => match f {
                            FieldView::Normal(NormalRionType::Array, w) => spec_parse_elems(
                                w,
                            ) is None && e == spec_parse_elems_err(w),
                            _ => e == DeserializeError::WrongType(
                                RionFieldType::Normal(NormalRionType::Array),
                                f.field_type(),
                            ),
                        },
                    }
                },
            },
    {
        let (field, rest) = match RionField::parse(data) {
            Ok(p) => p,
            Err(e) => {
                return Err(e);
            },
        };
        match field {
            RionField::Normal(nf) => {
                if !matches!(nf.field_type, NormalRionType::Array) {
                    return Err(
                        DeserializeError::WrongType(
                            RionFieldType::Normal(NormalRionType::Array),
                            RionFieldType::Normal(nf.field_type),
                        ),
                    );
                }
                let elements = match parse_field_seq(nf.as_bytes()) {
                    Ok(es) => es,
                    Err(e) => {
                        return Err(e);
                    },
                };
                Ok((RionArray { elements }, rest))
            },
            other => Err(
                DeserializeError::WrongType(
                    RionFieldType::Normal(NormalRionType::Array),
                    other.field_type(),
                ),
            ),
        }
    }

    /// Parses an array field that must take the whole buffer; trailing bytes
    /// are `ExtraData`.
    pub fn from_slice(data: &[u8]) -> (r: Result<RionArray, DeserializeError>)
        ensures
            match r {
                Ok(arr) => {
                    &&& spec_parse_array(data@) == Some((arr@, data@.len() as int))
                    &&& arr.wf()
                },
                Err(e) => match spec_parse_array(data@) {
                    Some((es, n)) => n < data@.len() && e == DeserializeError::ExtraData,
                    None => match spec_parse_field(data@) {
                        None => e == spec_parse_field_err(data@),
                        Some((f, n)) => match f {
                            FieldView::Normal(NormalRionType::Array, w) => spec_parse_elems(
                                w,
                            ) is None && e == spec_parse_elems_err(w),
                            _ => e == DeserializeError::WrongType(
                                RionFieldType::Normal(NormalRionType::Array),
                                f.field_type(),
                            ),
                        },
                    },
                },
            },
    {
        match RionArray::parse(data) {
            Ok((arr, rest)) => {
                if rest.len() > 0 {
                    proof {
                        assert(data@.subrange(
                            spec_parse_array(data@)->Some_0.1,
                            data@.len() as int,
                        ).len() > 0);
                    }
                    Err(DeserializeError::ExtraData)
                } else {
                    proof {
                        assert(data@.subrange(
                            spec_parse_array(data@)->Some_0.1,
                            data@.len() as int,
                        ).len() == 0);
                    }
                    Ok(arr)
                }
            },
            Err(e) => Err(e),
        }
    }

    /// The canonical wire bytes of this array: an array lead with the
    /// shortest length, then every element's encoding in order.
    pub fn encode(&self) -> (r: Vec<u8>)
        requires
            self.wf(),
        ensures
            r@ == self.spec_bytes(),
    {
        proof {
            assert forall|i: int| 0 <= i < self.elements@.len() implies (
            #[trigger] self.elements@[i]).wf() by {
                assert(self@[i] == self.elements@[i]@);
            }
        }
        let mut content: Vec<u8> = Vec::new();
        encode_field_seq(&self.elements, &mut content);
        let framed = NormalField::new(NormalRionType::Array, content);
        let mut out: Vec<u8> = Vec::new();
        framed.extend(&mut out);
        out
    }
}

/// Round trip for arrays: decoding a canonical encoding restores exactly the
/// element sequence that was encoded, consuming every byte of it.
pub proof fn lemma_array_round_trip(es: Seq<FieldView>)
    requires
        elems_wf(es),
        elems_bytes(es).len() <= usize::MAX,
    ensures
        spec_parse_array(
            field_bytes(FieldView::Normal(NormalRionType::Array, elems_bytes(es))),
        ) == Some(
            (
                es,
                field_bytes(FieldView::Normal(NormalRionType::Array, elems_bytes(es))).len() as int,
            ),
        ),
{
    let f = FieldView::Normal(NormalRionType::Array, elems_bytes(es));
    crate::field::lemma_parse_field_of_encode(f, Seq::<u8>::empty());
    assert(field_bytes(f) + Seq::<u8>::empty() =~= field_bytes(f));
    crate::window::lemma_parse_elems_of_encode(es);
}

} // verus!
