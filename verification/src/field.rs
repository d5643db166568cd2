//! Single-field codec: the grammar of one tagged RION value.
//!
//! A field is tiny (one lead byte), short (lead byte, then up to 15 payload
//! bytes whose count sits in the low nibble), or normal (lead byte, then a
//! compact big-endian payload length, then the payload).  `spec_parse_field`
//! and `field_bytes` are the mathematical parser and printer; every
//! executable function here is proved against them.

use vstd::prelude::*;
use vstd::slice::{slice_subrange, slice_to_vec};
use vstd::string::StringSliceAdditionalSpecFns;

use crate::errors::DeserializeError;
use crate::num::{be_bytes, be_val, bytes_to_uint, int_to_bytes, min_be_len, needed_bytes_usize};
use crate::types::{
    spec_bool_low, spec_classify_lead, spec_is_key_type, spec_normal_nibble,
    spec_normal_of_nibble, spec_short_nibble, spec_short_of_nibble, NormalRionType, RionFieldType,
    ShortRionType,
};

verus! {

/// The mathematical shape of one field: its family, type and payload bytes.
#[verifier::ext_equal]
pub enum FieldView {
    Tiny(Option<bool>),
    Short(ShortRionType, Seq<u8>),
    Normal(NormalRionType, Seq<u8>),
}

impl FieldView {
    /// The field type this shape carries on the wire.
    pub open spec fn field_type(self) -> RionFieldType {
        match self {
            FieldView::Tiny(v) => RionFieldType::Bool(v),
            FieldView::Short(t, _) => RionFieldType::Short(t),
            FieldView::Normal(t, _) => RionFieldType::Normal(t),
        }
    }

    /// The payload bytes; empty for tiny fields.
    pub open spec fn data(self) -> Seq<u8> {
        match self {
            FieldView::Tiny(_) => Seq::<u8>::empty(),
            FieldView::Short(_, d) => d,
            FieldView::Normal(_, d) => d,
        }
    }

    /// True of key fields, short or long.
    pub open spec fn is_key(self) -> bool {
        spec_is_key_type(self.field_type())
    }
}

/// Well-formedness: a short payload fits its nibble, a normal payload fits
/// the address space.
pub open spec fn field_wf(f: FieldView) -> bool {
    match f {
        FieldView::Tiny(_) => true,
        FieldView::Short(_, d) => d.len() <= 15,
        FieldView::Normal(_, d) => d.len() <= usize::MAX,
    }
}

/// The canonical wire bytes of a field: the one normal form per value.
pub open spec fn field_bytes(f: FieldView) -> Seq<u8> {
    match f {
        FieldView::Tiny(v) => seq![(0x10 + spec_bool_low(v)) as u8],
        FieldView::Short(t, d) => seq![(spec_short_nibble(t) * 16 + d.len()) as u8] + d,
        FieldView::Normal(t, d) => seq![(spec_normal_nibble(t) * 16 + min_be_len(d.len())) as u8]
            + be_bytes(d.len()) + d,
    }
}

/// The mathematical parser for one field at the head of `s`: the field shape
/// and how many bytes it took, or `None` where the grammar rejects.
pub open spec fn spec_parse_field(s: Seq<u8>) -> Option<(FieldView, int)> {
    if s.len() == 0 {
        None
    } else {
        let b = s[0];
        let l = (b % 16) as int;
        match spec_classify_lead(b) {
            None => None,
            Some(RionFieldType::Bool(v)) => Some((FieldView::Tiny(v), 1int)),
            Some(RionFieldType::Short(t)) => if s.len() >= 1 + l {
                Some((FieldView::Short(t, s.subrange(1, 1 + l)), 1 + l))
            } else {
                None
            },
            Some(RionFieldType::Normal(t)) => if s.len() < 1 + l {
                None
            } else if l > 8 {
                None
            } else {
                let dl = be_val(s.subrange(1, 1 + l)) as int;
                if dl > usize::MAX {
                    None
                } else if s.len() < 1 + l + dl {
                    None
                } else {
                    Some((FieldView::Normal(t, s.subrange(1 + l, 1 + l + dl)), 1 + l + dl))
                }
            },
            Some(RionFieldType::Extended) => None,
        }
    }
}

/// Which error the field parser raises on an input it rejects.
pub open spec fn spec_parse_field_err(s: Seq<u8>) -> DeserializeError {
    if s.len() == 0 {
        DeserializeError::EmptyInput
    } else {
        let b = s[0];
        let l = (b % 16) as int;
        match spec_classify_lead(b) {
            None => DeserializeError::InvalidLead(b),
            Some(RionFieldType::Bool(v)) => DeserializeError::EmptyInput,  // never raised
            Some(RionFieldType::Short(t)) => DeserializeError::Truncated(
                l as usize,
                (s.len() - 1) as usize,
            ),
            Some(RionFieldType::Normal(t)) => if s.len() < 1 + l {
                DeserializeError::Truncated(l as usize, (s.len() - 1) as usize)
            } else if l > 8 {
                DeserializeError::IntegerOutOfRange
            } else {
                let dl = be_val(s.subrange(1, 1 + l)) as int;
                if dl > usize::MAX {
                    DeserializeError::IntegerOutOfRange
                } else {
                    DeserializeError::Truncated(dl as usize, (s.len() - 1 - l) as usize)
                }
            },
            Some(RionFieldType::Extended) => DeserializeError::InvalidLead(b),
        }
    }
}

/// A field whose payload length sits directly in the lead byte's low nibble.
#[derive(Debug, Clone, PartialEq, Eq, Hash)]
pub struct ShortField {
    pub field_type: ShortRionType,
    pub data: Vec<u8>,
}

impl View for ShortField {
    type V = FieldView;

    open spec fn view(&self) -> FieldView {
        FieldView::Short(self.field_type, self.data@)
    }
}

impl ShortField {
    /// Payload fits the low nibble.
    pub open spec fn wf(&self) -> bool {
        field_wf(self@)
    }

    /// Builds a short field over up to 15 payload bytes.
    pub fn new(field_type: ShortRionType, data: Vec<u8>) -> (r: ShortField)
        requires
            data@.len() <= 15,
        ensures
            r@ == FieldView::Short(field_type, data@),
            r.wf(),
    {
        ShortField { field_type, data }
    }

    /// The null (empty) field of a short type.
    pub fn null(field_type: ShortRionType) -> (r: ShortField)
        ensures
            r@ == FieldView::Short(field_type, Seq::<u8>::empty()),
            r.wf(),
    {
        ShortField { field_type, data: Vec::new() }
    }

    /// Parses one field and demands that it is short.
    pub fn parse(input: &[u8]) -> (r: Result<(ShortField, &[u8]), DeserializeError>)
        ensures
            match r {
                Ok((f, rest)) => {
                    &&& spec_parse_field(input@) is Some
                    &&& f@ == spec_parse_field(input@)->Some_0.0
                    &&& f@ is Short
                    &&& f.wf()
                    &&& rest@ == input@.subrange(
                        spec_parse_field(input@)->Some_0.1,
                        input@.len() as int,
                    )
                },
                Err(e) => match spec_parse_field(input@) {
                    Some((f, n)) => !(f is Short) && e == DeserializeError::BadFamily(
                        f.field_type(),
                    ),
                    None => e == spec_parse_field_err(input@),
                },
            },
    {
        match RionField::parse(input) {
            Ok((RionField::Short(f), rest)) => Ok((f, rest)),
            Ok((other, _)) => Err(DeserializeError::BadFamily(other.field_type())),
            Err(e) => Err(e),
        }
    }

    /// Appends this field's canonical wire bytes to `out`.
    pub fn extend(&self, out: &mut Vec<u8>)
        requires
            self.wf(),
        ensures
            final(out)@ == old(out)@ + field_bytes(self@),
    {
        out.push(self.field_type.to_byte() * 16 + self.data.len() as u8);
        out.extend_from_slice(self.data.as_slice());
        assert(final(out)@ =~= old(out)@ + field_bytes(self@));
    }

    /// The payload as a string, for string and key fields holding valid
    /// UTF-8; `None` otherwise.
    pub fn as_str(&self) -> (r: Option<String>)
        ensures
            r is Some <==> (self.field_type == ShortRionType::Key || self.field_type
                == ShortRionType::UTF8) && vstd::utf8::valid_utf8(self@.data()),
            r is Some ==> r->Some_0@ == vstd::utf8::decode_utf8(self@.data()),
    {
        match self.field_type {
            ShortRionType::Key | ShortRionType::UTF8 => utf8_to_string(self.data.as_slice()),
            _ => None,
        }
    }

    /// The raw payload bytes.
    pub fn as_bytes(&self) -> (r: &[u8])
        ensures
            r@ == self@.data(),
    {
        self.data.as_slice()
    }

    /// The value of a positive integer field; `None` for other types or for
    /// payloads over 8 bytes.
    pub fn as_pos_int(&self) -> (r: Option<u64>)
        ensures
            r is Some <==> self.field_type == ShortRionType::Int64Positive && self@.data().len()
                <= 8,
            r is Some ==> r == Some(be_val(self@.data()) as u64),
    {
        if self.data.len() > 8 {
            return None;
        }
        match self.field_type {
            ShortRionType::Int64Positive => match bytes_to_uint(self.data.as_slice()) {
                Ok(v) => Some(v),
                Err(_) => None,
            },
            _ => None,
        }
    }

    /// The value of a negative integer field, reconstructed as `-(m + 1)`
    /// from the stored magnitude `m`; `None` for other types, payloads over
    /// 8 bytes, or magnitudes whose value would not fit an `i64`.
    pub fn as_neg_int(&self) -> (r: Option<i64>)
        ensures
            r is Some <==> self.field_type == ShortRionType::Int64Negative && self@.data().len()
                <= 8 && be_val(self@.data()) < 0x8000_0000_0000_0000,
            r is Some ==> r == Some((-(be_val(self@.data()) as int) - 1) as i64),
    {
        if self.data.len() > 8 {
            return None;
        }
        match self.field_type {
            ShortRionType::Int64Negative => match bytes_to_uint(self.data.as_slice()) {
                Ok(m) => if m < 0x8000_0000_0000_0000 {
                    proof {
                        crate::num::lemma_be_val_fits_u64(self.data@);
                    }
                    Some(-(m as i64) - 1)
                } else {
                    proof {
                        crate::num::lemma_be_val_fits_u64(self.data@);
                    }
                    None
                },
                Err(_) => None,
            },
            _ => None,
        }
    }

    /// The bits of a binary32 float field; payloads shorter than 4 bytes are
    /// read as zero-extended on the left.
    pub fn as_f32_bits(&self) -> (r: Option<u32>)
        ensures
            r is Some <==> self.field_type == ShortRionType::Float && self@.data().len() <= 4,
            r is Some ==> r == Some(be_val(self@.data()) as u32),
    {
        if self.data.len() > 4 || !matches!(self.field_type, ShortRionType::Float) {
            return None;
        }
        proof {
            crate::num::lemma_be_val_bound(self.data@);
            crate::num::lemma_pow256_increases(self.data@.len() as nat, 4);
            reveal_with_fuel(crate::num::pow256, 5);
        }
        match bytes_to_uint(self.data.as_slice()) {
            Ok(v) => Some(v as u32),
            Err(_) => None,
        }
    }

    /// The bits of a binary64 float field; payloads shorter than 8 bytes are
    /// read as zero-extended on the left.
    pub fn as_f64_bits(&self) -> (r: Option<u64>)
        ensures
            r is Some <==> self.field_type == ShortRionType::Float && self@.data().len() <= 8,
            r is Some ==> r == Some(be_val(self@.data()) as u64),
    {
        if self.data.len() > 8 || !matches!(self.field_type, ShortRionType::Float) {
            return None;
        }
        match bytes_to_uint(self.data.as_slice()) {
            Ok(v) => Some(v),
            Err(_) => None,
        }
    }

    /// True of the empty payload.
    pub fn is_null(&self) -> (r: bool)
        ensures
            r == (self@.data().len() == 0),
    {
        self.data.len() == 0
    }
}

/// A field whose lead byte carries a length-of-length; the payload length
/// follows as a compact big-endian integer.
#[derive(Debug, Clone, PartialEq, Eq, Hash)]
pub struct NormalField {
    pub field_type: NormalRionType,
    pub data: Vec<u8>,
}

impl View for NormalField {
    type V = FieldView;

    open spec fn view(&self) -> FieldView {
        FieldView::Normal(self.field_type, self.data@)
    }
}

impl NormalField {
    /// Builds a normal field over arbitrary payload bytes.
    pub fn new(field_type: NormalRionType, data: Vec<u8>) -> (r: NormalField)
        ensures
            r@ == FieldView::Normal(field_type, data@),
    {
        NormalField { field_type, data }
    }

    /// The null (empty) field of a normal type.
    pub fn null(field_type: NormalRionType) -> (r: NormalField)
        ensures
            r@ == FieldView::Normal(field_type, Seq::<u8>::empty()),
    {
        NormalField { field_type, data: Vec::new() }
    }

    /// Parses a normal field's payload from `input`, after the lead byte has
    /// been consumed: `length_length` length bytes, then that many payload
    /// bytes.  A `length_length` of 0 consumes nothing and yields the null
    /// field of the type.
    pub fn parse(input: &[u8], length_length: usize, field_type: NormalRionType) -> (r: Result<
        (NormalField, &[u8]),
        DeserializeError,
    >)
        ensures
            match r {
                Ok((f, rest)) => {
                    &&& f@ is Normal
                    &&& f.field_type == field_type
                    &&& length_length <= input@.len()
                    &&& (length_length == 0 ==> f@.data().len() == 0 && rest@ == input@)
                    &&& (length_length > 0 ==> length_length <= 8 && {
                        let dl = be_val(input@.subrange(0, length_length as int)) as int;
                        &&& dl <= usize::MAX
                        &&& input@.len() >= length_length + dl
                        &&& f@.data() == input@.subrange(
                            length_length as int,
                            length_length + dl,
                        )
                        &&& rest@ == input@.subrange(length_length + dl, input@.len() as int)
                    })
                },
                Err(e) => if length_length > 15 {
                    e == DeserializeError::IntegerOutOfRange
                } else if length_length > input@.len() {
                    e == DeserializeError::Truncated(length_length, input@.len() as usize)
                } else if length_length > 8 {
                    e == DeserializeError::IntegerOutOfRange
                } else {
                    let dl = be_val(input@.subrange(0, length_length as int)) as int;
                    if dl > usize::MAX {
                        e == DeserializeError::IntegerOutOfRange
                    } else {
                        &&& length_length > 0
                        &&& input@.len() < length_length + dl
                        &&& e == DeserializeError::Truncated(
                            dl as usize,
                            (input@.len() - length_length) as usize,
                        )
                    }
                },
            },
    {
        if length_length > 15 {
            return Err(DeserializeError::IntegerOutOfRange);
        }
        if length_length > input.len() {
            return Err(DeserializeError::Truncated(length_length, input.len()));
        }
        if length_length == 0 {
            return Ok((NormalField::null(field_type), input));
        }
        let len_bytes = slice_subrange(input, 0, length_length);
        let dl64 = match bytes_to_uint(len_bytes) {
            Ok(v) => v,
            Err(e) => {
                return Err(e);
            },
        };
        proof {
            crate::num::lemma_be_val_fits_u64(len_bytes@);
        }
        if dl64 > usize::MAX as u64 {
            return Err(DeserializeError::IntegerOutOfRange);
        }
        let dl = dl64 as usize;
        if dl > input.len() - length_length {
            return Err(DeserializeError::Truncated(dl, input.len() - length_length));
        }
        let payload = slice_to_vec(slice_subrange(input, length_length, length_length + dl));
        Ok(
            (
                NormalField { field_type, data: payload },
                slice_subrange(input, length_length + dl, input.len()),
            ),
        )
    }

    /// Appends this field's canonical wire bytes to `out`: lead byte with
    /// the shortest length-of-length, compact length, payload.
    pub fn extend(&self, out: &mut Vec<u8>)
        ensures
            final(out)@ == old(out)@ + field_bytes(self@),
    {
        proof {
            crate::num::lemma_min_be_len_u64(self.data@.len() as u64);
        }
        let ll = needed_bytes_usize(self.data.len());
        out.push(self.field_type.to_byte() * 16 + ll as u8);
        int_to_bytes(self.data.len() as u64, out);
        out.extend_from_slice(self.data.as_slice());
        assert(final(out)@ =~= old(out)@ + field_bytes(self@));
    }

    /// True of the empty payload.
    pub fn is_null(&self) -> (r: bool)
        ensures
            r == (self@.data().len() == 0),
    {
        self.data.len() == 0
    }

    /// The payload as a string, for string and key fields holding valid
    /// UTF-8; `None` otherwise.
    pub fn as_str(&self) -> (r: Option<String>)
        ensures
            r is Some <==> (self.field_type == NormalRionType::Key || self.field_type
                == NormalRionType::UTF8) && vstd::utf8::valid_utf8(self@.data()),
            r is Some ==> r->Some_0@ == vstd::utf8::decode_utf8(self@.data()),
    {
        match self.field_type {
            NormalRionType::Key | NormalRionType::UTF8 => utf8_to_string(self.data.as_slice()),
            _ => None,
        }
    }

    /// The raw payload bytes.
    pub fn as_bytes(&self) -> (r: &[u8])
        ensures
            r@ == self@.data(),
    {
        self.data.as_slice()
    }
}

/// One tagged RION field: tiny boolean, short, or normal.
#[derive(Debug, Clone, PartialEq, Eq, Hash)]
pub enum RionField {
    Bool(Option<bool>),
    Short(ShortField),
    Normal(NormalField),
}

impl View for RionField {
    type V = FieldView;

    open spec fn view(&self) -> FieldView {
        match self {
            RionField::Bool(v) => FieldView::Tiny(*v),
            RionField::Short(f) => f@,
            RionField::Normal(f) => f@,
        }
    }
}

/// Relies on std's `str::from_utf8`: it succeeds exactly on valid UTF-8 and
/// yields the characters that vstd's UTF-8 model assigns to those bytes.
#[verifier::external_body]
fn utf8_to_string(bytes: &[u8]) -> (r: Option<String>)
    ensures
        r is Some <==> vstd::utf8::valid_utf8(bytes@),
        r is Some ==> r->Some_0@ == vstd::utf8::decode_utf8(bytes@),
{
    match core::str::from_utf8(bytes) {
        Ok(s) => Some(s.to_string()),
        Err(_) => None,
    }
}

/// The wire view a key of these bytes takes: short up to 15 bytes, long above.
pub open spec fn key_field_view(key: Seq<u8>) -> FieldView {
    if key.len() <= 15 {
        FieldView::Short(ShortRionType::Key, key)
    } else {
        FieldView::Normal(NormalRionType::Key, key)
    }
}

/// The wire view a UTF-8 string of these bytes takes: the short tag up to
/// 15 bytes, the empty string included, and the normal tag above.
pub open spec fn str_field_view(bytes: Seq<u8>) -> FieldView {
    if bytes.len() <= 15 {
        FieldView::Short(ShortRionType::UTF8, bytes)
    } else {
        FieldView::Normal(NormalRionType::UTF8, bytes)
    }
}

/// The payload of an integer field: the magnitude's stripped big-endian
/// form, except that zero keeps one `0x00` byte.
pub open spec fn int_payload(n: nat) -> Seq<u8> {
    if n == 0 {
        seq![0u8]
    } else {
        be_bytes(n)
    }
}

impl RionField {
    /// Builds a key field over raw bytes.
    pub fn key(key: &[u8]) -> (r: RionField)
        ensures
            r@ == key_field_view(key@),
            r.wf(),
    {
        if key.len() <= 15 {
            RionField::Short(ShortField { field_type: ShortRionType::Key, data: slice_to_vec(key) })
        } else {
            RionField::Normal(
                NormalField { field_type: NormalRionType::Key, data: slice_to_vec(key) },
            )
        }
    }

    /// Builds a key field over a string's UTF-8 bytes.
    pub fn key_str(key: &str) -> (r: RionField)
        ensures
            r@ == key_field_view(key.spec_bytes()),
            r.wf(),
    {
        RionField::key(key.as_bytes())
    }

    /// Builds an opaque bytes field.
    pub fn bytes(data: &[u8]) -> (r: RionField)
        ensures
            r@ == FieldView::Normal(NormalRionType::Bytes, data@),
            r.wf(),
    {
        proof {
            vstd::slice::axiom_spec_len(data);
        }
        RionField::Normal(NormalField { field_type: NormalRionType::Bytes, data: slice_to_vec(data) })
    }

    /// Builds an integer field: non-negative values under the positive tag,
    /// negative ones under the negative tag with magnitude `-v - 1`.
    pub fn int64(value: i64) -> (r: RionField)
        ensures
            value >= 0 ==> r@ == FieldView::Short(
                ShortRionType::Int64Positive,
                int_payload(value as nat),
            ),
            value < 0 ==> r@ == FieldView::Short(
                ShortRionType::Int64Negative,
                int_payload((-value - 1) as nat),
            ),
            r.wf(),
    {
        if value >= 0 {
            let mut data: Vec<u8> = Vec::new();
            if value == 0 {
                data.push(0);
                assert(data@ =~= int_payload(0));
            } else {
                int_to_bytes(value as u64, &mut data);
            }
            proof {
                lemma_int_payload_len(value as nat);
            }
            RionField::Short(ShortField { field_type: ShortRionType::Int64Positive, data })
        } else {
            let magnitude: u64 = (-(value + 1)) as u64;
            let mut data: Vec<u8> = Vec::new();
            if magnitude == 0 {
                data.push(0);
                assert(data@ =~= int_payload(0));
            } else {
                int_to_bytes(magnitude, &mut data);
            }
            proof {
                lemma_int_payload_len(magnitude as nat);
            }
            RionField::Short(ShortField { field_type: ShortRionType::Int64Negative, data })
        }
    }

    /// Builds a positive integer field.
    pub fn uint64(value: u64) -> (r: RionField)
        ensures
            r@ == FieldView::Short(ShortRionType::Int64Positive, int_payload(value as nat)),
            r.wf(),
    {
        let mut data: Vec<u8> = Vec::new();
        if value == 0 {
            data.push(0);
            assert(data@ =~= int_payload(0));
        } else {
            int_to_bytes(value, &mut data);
        }
        proof {
            lemma_int_payload_len(value as nat);
        }
        RionField::Short(ShortField { field_type: ShortRionType::Int64Positive, data })
    }

    /// Builds a boolean field.
    pub fn bool(value: bool) -> (r: RionField)
        ensures
            r@ == FieldView::Tiny(Some(value)),
    {
        RionField::Bool(Some(value))
    }

    /// Builds a string field over a string's UTF-8 bytes.
    pub fn from_str(value: &str) -> (r: RionField)
        ensures
            r@ == str_field_view(value.spec_bytes()),
            r.wf(),
    {
        let bytes = value.as_bytes();
        if bytes.len() <= 15 {
            RionField::Short(
                ShortField { field_type: ShortRionType::UTF8, data: slice_to_vec(bytes) },
            )
        } else {
            RionField::Normal(
                NormalField { field_type: NormalRionType::UTF8, data: slice_to_vec(bytes) },
            )
        }
    }

    /// Builds a binary32 float field over the full 4 big-endian bytes of the
    /// given bits.
    pub fn float32_from_bits(bits: u32) -> (r: RionField)
        ensures
            r@ == FieldView::Short(ShortRionType::Float, be_fixed(bits as nat, 4)),
            r.wf(),
    {
        let mut data: Vec<u8> = Vec::new();
        push_be_fixed(bits as u64, 4, &mut data);
        proof {
            lemma_be_fixed_len(bits as nat, 4);
        }
        RionField::Short(ShortField { field_type: ShortRionType::Float, data })
    }

    /// Builds a binary64 float field over the full 8 big-endian bytes of the
    /// given bits.
    pub fn float64_from_bits(bits: u64) -> (r: RionField)
        ensures
            r@ == FieldView::Short(ShortRionType::Float, be_fixed(bits as nat, 8)),
            r.wf(),
    {
        let mut data: Vec<u8> = Vec::new();
        push_be_fixed(bits, 8, &mut data);
        proof {
            lemma_be_fixed_len(bits as nat, 8);
        }
        RionField::Short(ShortField { field_type: ShortRionType::Float, data })
    }

    /// Parses one field from the head of `data` and returns the unconsumed
    /// tail.  Agrees exactly with the mathematical parser: `Ok` if and only
    /// if `spec_parse_field` accepts, and the error is the one
    /// `spec_parse_field_err` names.
    pub fn parse(data: &[u8]) -> (r: Result<(RionField, &[u8]), DeserializeError>)
        ensures
            match r {
                Ok((f, rest)) => {
                    &&& spec_parse_field(data@) is Some
                    &&& f@ == spec_parse_field(data@)->Some_0.0
                    &&& f.wf()
                    &&& rest@ == data@.subrange(
                        spec_parse_field(data@)->Some_0.1,
                        data@.len() as int,
                    )
                },
                Err(e) => spec_parse_field(data@) is None && e == spec_parse_field_err(data@),
            },
    {
        if data.len() == 0 {
            return Err(DeserializeError::EmptyInput);
        }
        let b = data[0];
        let lead = match crate::types::RionFieldType::from_byte(b) {
            Ok(l) => l,
            Err(e) => {
                return Err(e);
            },
        };
        match lead {
            RionFieldType::Bool(v) => Ok(
                (RionField::Bool(v), slice_subrange(data, 1, data.len())),
            ),
            RionFieldType::Short(t) => {
                let l = (b % 16) as usize;
                if data.len() - 1 < l {
                    return Err(DeserializeError::Truncated(l, data.len() - 1));
                }
                let payload = slice_to_vec(slice_subrange(data, 1, 1 + l));
                Ok(
                    (
                        RionField::Short(ShortField { field_type: t, data: payload }),
                        slice_subrange(data, 1 + l, data.len()),
                    ),
                )
            },
            RionFieldType::Normal(t) => {
                let ll = (b % 16) as usize;
                if data.len() - 1 < ll {
                    return Err(DeserializeError::Truncated(ll, data.len() - 1));
                }
                if ll > 8 {
                    return Err(DeserializeError::IntegerOutOfRange);
                }
                let len_bytes = slice_subrange(data, 1, 1 + ll);
                let dl64 = match bytes_to_uint(len_bytes) {
                    Ok(v) => v,
                    Err(e) => {
                        return Err(e);
                    },
                };
                proof {
                    crate::num::lemma_be_val_fits_u64(len_bytes@);
                }
                if dl64 > usize::MAX as u64 {
                    return Err(DeserializeError::IntegerOutOfRange);
                }
                let dl = dl64 as usize;
                if data.len() - 1 - ll < dl {
                    return Err(DeserializeError::Truncated(dl, data.len() - 1 - ll));
                }
                let payload = slice_to_vec(slice_subrange(data, 1 + ll, 1 + ll + dl));
                Ok(
                    (
                        RionField::Normal(NormalField { field_type: t, data: payload }),
                        slice_subrange(data, 1 + ll + dl, data.len()),
                    ),
                )
            },
            RionFieldType::Extended => Err(DeserializeError::InvalidLead(b)),
        }
    }

    /// Appends this field's canonical wire bytes to `out`.
    pub fn encode(&self, out: &mut Vec<u8>)
        requires
            self.wf(),
        ensures
            final(out)@ == old(out)@ + field_bytes(self@),
    {
        match self {
            RionField::Bool(lead) => {
                let b: u8 = match lead {
                    None => 0x10,
                    Some(false) => 0x11,
                    Some(true) => 0x12,
                };
                out.push(b);
                assert(final(out)@ =~= old(out)@ + field_bytes(self@));
            },
            RionField::Short(short) => {
                short.extend(out);
            },
            RionField::Normal(normal) => {
                normal.extend(out);
            },
        }
    }

    /// This field's canonical wire bytes.
    pub fn encode_to_vec(&self) -> (r: Vec<u8>)
        requires
            self.wf(),
        ensures
            r@ == field_bytes(self@),
    {
        let mut out: Vec<u8> = Vec::new();
        self.encode(&mut out);
        proof {
            assert(out@ =~= field_bytes(self@));
        }
        out
    }

    /// Parses one field that must take the whole buffer; trailing bytes are
    /// `ExtraData`.
    pub fn from_slice(buf: &[u8]) -> (r: Result<RionField, DeserializeError>)
        ensures
            match r {
                Ok(f) => spec_parse_field(buf@) == Some((f@, buf@.len() as int)) && f.wf(),
                Err(e) => match spec_parse_field(buf@) {
                    Some((f, n)) => n < buf@.len() && e == DeserializeError::ExtraData,
                    None => e == spec_parse_field_err(buf@),
                },
            },
    {
        match RionField::parse(buf) {
            Ok((field, rest)) => {
                if rest.len() > 0 {
                    Err(DeserializeError::ExtraData)
                } else {
                    proof {
                        let n = spec_parse_field(buf@)->Some_0.1;
                        assert(buf@.subrange(n, buf@.len() as int).len() == 0);
                    }
                    Ok(field)
                }
            },
            Err(e) => Err(e),
        }
    }

    /// True of key fields.
    pub fn is_key(&self) -> (r: bool)
        ensures
            r == self@.is_key(),
    {
        match self {
            RionField::Short(short) => matches!(short.field_type, ShortRionType::Key),
            RionField::Normal(normal) => matches!(normal.field_type, NormalRionType::Key),
            _ => false,
        }
    }

    /// True of the null boolean and of every field with an empty payload.
    pub fn is_null(&self) -> (r: bool)
        ensures
            r == match self@ {
                FieldView::Tiny(v) => v is None,
                FieldView::Short(_, d) => d.len() == 0,
                FieldView::Normal(_, d) => d.len() == 0,
            },
    {
        match self {
            RionField::Bool(lead) => lead.is_none(),
            RionField::Short(short) => short.is_null(),
            RionField::Normal(normal) => normal.is_null(),
        }
    }

    /// The payload as a string, for string and key fields holding valid
    /// UTF-8; `None` otherwise.
    pub fn as_str(&self) -> (r: Option<String>)
        ensures
            r is Some ==> r->Some_0@ == vstd::utf8::decode_utf8(self@.data()),
            r is Some <==> (spec_is_key_type(self@.field_type()) || crate::types::spec_is_str_type(
                self@.field_type(),
            )) && vstd::utf8::valid_utf8(self@.data()),
    {
        match self {
            RionField::Short(short) => short.as_str(),
            RionField::Normal(normal) => normal.as_str(),
            _ => None,
        }
    }

    /// The raw payload bytes; empty for tiny fields.
    pub fn as_bytes(&self) -> (r: &[u8])
        ensures
            r@ == self@.data(),
    {
        match self {
            RionField::Short(short) => short.as_bytes(),
            RionField::Normal(normal) => normal.as_bytes(),
            RionField::Bool(_) => empty_slice(),
        }
    }

    /// The exact number of bytes this field takes on the wire.
    pub fn needed_bytes(&self) -> (r: usize)
        requires
            self.wf(),
            field_bytes(self@).len() <= usize::MAX,
        ensures
            r == field_bytes(self@).len(),
    {
        match self {
            RionField::Bool(_) => 1,
            RionField::Short(short) => 1 + short.as_bytes().len(),
            RionField::Normal(normal) => {
                proof {
                    crate::num::lemma_be_bytes_len(normal.data@.len() as nat);
                }
                let data_len = normal.as_bytes().len();
                1 + needed_bytes_usize(data_len) + data_len
            },
        }
    }

    /// Surrenders the payload bytes; `None` for tiny fields.
    pub fn to_data(self) -> (r: Option<Vec<u8>>)
        ensures
            self@ is Tiny <==> r is None,
            r is Some ==> r->Some_0@ == self@.data(),
    {
        match self {
            RionField::Short(short) => Some(short.data),
            RionField::Normal(normal) => Some(normal.data),
            RionField::Bool(_) => None,
        }
    }

    /// True when this is a normal field of the given type.
    pub fn is_normal_type(&self, field_type: NormalRionType) -> (r: bool)
        ensures
            r == (self@.field_type() == RionFieldType::Normal(field_type)),
    {
        match self {
            RionField::Normal(normal) => normal.field_type.to_byte() == field_type.to_byte(),
            _ => false,
        }
    }

    /// True when this is a short field of the given type.
    pub fn is_short_type(&self, field_type: ShortRionType) -> (r: bool)
        ensures
            r == (self@.field_type() == RionFieldType::Short(field_type)),
    {
        match self {
            RionField::Short(short) => short.field_type.to_byte() == field_type.to_byte(),
            _ => false,
        }
    }

    /// The field type carried on the wire.
    pub fn field_type(&self) -> (r: RionFieldType)
        ensures
            r == self@.field_type(),
    {
        match self {
            RionField::Bool(lead) => RionFieldType::Bool(*lead),
            RionField::Short(short) => RionFieldType::Short(short.field_type),
            RionField::Normal(normal) => RionFieldType::Normal(normal.field_type),
        }
    }

    /// Well-formedness of the underlying shape.
    pub open spec fn wf(&self) -> bool {
        field_wf(self@)
    }
}

/// An empty byte slice.
fn empty_slice() -> (r: &'static [u8])
    ensures
        r@ == Seq::<u8>::empty(),
{
    let v: &[u8] = &[];
    proof {
        assert(v@.len() == 0);
        assert(v@ =~= Seq::<u8>::empty());
    }
    v
}

/// The big-endian bytes of `n` at a fixed width `k`, zero-padded on the left.
pub open spec fn be_fixed(n: nat, k: nat) -> Seq<u8>
    decreases k,
{
    if k == 0 {
        Seq::<u8>::empty()
    } else {
        be_fixed(n / 256, (k - 1) as nat).push((n % 256) as u8)
    }
}

pub proof fn lemma_be_fixed_len(n: nat, k: nat)
    ensures
        be_fixed(n, k).len() == k,
    decreases k,
{
    if k > 0 {
        lemma_be_fixed_len(n / 256, (k - 1) as nat);
    }
}

/// A fixed-width big-endian form holds the value it was built from, as long
/// as the value fits the width.
pub proof fn lemma_be_fixed_val(n: nat, k: nat)
    requires
        n < crate::num::pow256(k),
    ensures
        be_val(be_fixed(n, k)) == n,
    decreases k,
{
    if k > 0 {
        assert(n / 256 < crate::num::pow256((k - 1) as nat)) by (nonlinear_arith)
            requires
                n < crate::num::pow256(k),
                crate::num::pow256(k) == 256 * crate::num::pow256((k - 1) as nat),
                n >= 0,
        ;
        lemma_be_fixed_val(n / 256, (k - 1) as nat);
        let s = be_fixed(n, k);
        assert(s.drop_last() =~= be_fixed(n / 256, (k - 1) as nat));
        vstd::arithmetic::div_mod::lemma_fundamental_div_mod(n as int, 256);
    } else {
    }
}

/// Appends the `width` big-endian bytes of `value`, zero-padded on the left.
pub(crate) fn push_be_fixed(value: u64, width: usize, out: &mut Vec<u8>)
    ensures
        final(out)@ == old(out)@ + be_fixed(value as nat, width as nat),
    decreases width,
{
    if width == 0 {
        assert(final(out)@ =~= old(out)@ + be_fixed(value as nat, 0));
        return ;
    }
    push_be_fixed(value / 256, width - 1, out);
    proof {
        vstd::arithmetic::div_mod::lemma_mod_bound(value as int, 256);
    }
    out.push((value % 256) as u8);
    assert(final(out)@ =~= old(out)@ + be_fixed(value as nat, width as nat));
}

/// Splitting a byte into nibbles inverts building it from them.
pub proof fn lemma_nibbles(n: u8, l: u8)
    requires
        n < 16,
        l < 16,
    ensures
        (n * 16 + l) < 256,
        ((n * 16 + l) as u8) / 16 == n,
        ((n * 16 + l) as u8) % 16 == l,
{
    assert((n * 16 + l) < 256 && (n * 16 + l) / 16 == n && (n * 16 + l) % 16 == l)
        by (nonlinear_arith)
        requires
            n < 16,
            l < 16,
    ;
}

/// Parsing begins again exactly where a canonical encoding ends: for every
/// well-formed field and every continuation, the parser consumes the
/// encoding, returns the field, and advances by exactly its length.
pub proof fn lemma_parse_field_of_encode(f: FieldView, rest: Seq<u8>)
    requires
        field_wf(f),
    ensures
        spec_parse_field(field_bytes(f) + rest) == Some((f, field_bytes(f).len() as int)),
{
    let s = field_bytes(f) + rest;
    match f {
        FieldView::Tiny(v) => {
            let b = (0x10 + spec_bool_low(v)) as u8;
            assert(s[0] == b);
            lemma_nibbles(1, spec_bool_low(v));
        },
        FieldView::Short(t, d) => {
            let nib = spec_short_nibble(t);
            let b = (nib * 16 + d.len()) as u8;
            lemma_nibbles(nib, d.len() as u8);
            assert(s[0] == b);
            assert(spec_short_of_nibble(b / 16) == Some(t));
            assert(s.len() >= 1 + d.len());
            assert(s.subrange(1, 1 + d.len() as int) =~= d);
        },
        FieldView::Normal(t, d) => {
            let nib = spec_normal_nibble(t);
            let ll = min_be_len(d.len());
            crate::num::lemma_pow256_8();
            crate::num::lemma_min_be_len_le(d.len(), 8);
            lemma_nibbles(nib, ll as u8);
            let b = (nib * 16 + ll) as u8;
            assert(s[0] == b);
            assert(spec_normal_of_nibble(b / 16) == Some(t));
            crate::num::lemma_be_bytes_len(d.len());
            assert(s.len() >= 1 + ll);
            assert(s.subrange(1, 1 + ll as int) =~= be_bytes(d.len()));
            crate::num::lemma_be_bytes_val(d.len());
            assert(be_val(s.subrange(1, 1 + ll as int)) == d.len());
            assert(s.len() >= 1 + ll + d.len());
            assert(s.subrange(1 + ll as int, 1 + ll as int + d.len() as int) =~= d);
        },
    }
}

/// What every successful parse guarantees: at least one byte consumed, no
/// more than the input holds, a well-formed field, and never fewer bytes
/// than the field's canonical encoding takes.
pub proof fn lemma_parse_field_bounds(s: Seq<u8>)
    requires
        spec_parse_field(s) is Some,
    ensures
        1 <= spec_parse_field(s)->Some_0.1 <= s.len(),
        field_wf(spec_parse_field(s)->Some_0.0),
        field_bytes(spec_parse_field(s)->Some_0.0).len() <= spec_parse_field(s)->Some_0.1,
{
    let b = s[0];
    let l = (b % 16) as int;
    match spec_classify_lead(b) {
        Some(RionFieldType::Normal(t)) => {
            let lb = s.subrange(1, 1 + l);
            let dl = be_val(lb) as int;
            crate::num::lemma_be_val_bound(lb);
            crate::num::lemma_min_be_len_le(be_val(lb), l as nat);
            crate::num::lemma_be_bytes_len(be_val(lb));
            let f = spec_parse_field(s)->Some_0.0;
            assert(f.data().len() == dl);
            assert(field_bytes(f).len() == 1 + min_be_len(dl as nat) + dl);
        },
        _ => {},
    }
}

/// The parser reads only the bytes it consumes: any buffer that agrees with
/// `s1` on the consumed prefix parses to the same field and length.
pub proof fn lemma_parse_field_prefix(s1: Seq<u8>, s2: Seq<u8>)
    requires
        spec_parse_field(s1) is Some,
        s2.len() >= spec_parse_field(s1)->Some_0.1,
        s2.subrange(0, spec_parse_field(s1)->Some_0.1) == s1.subrange(
            0,
            spec_parse_field(s1)->Some_0.1,
        ),
    ensures
        spec_parse_field(s2) == spec_parse_field(s1),
{
    let n = spec_parse_field(s1)->Some_0.1;
    lemma_parse_field_bounds(s1);
    assert(s2[0] == s1.subrange(0, n)[0]);
    assert(s2[0] == s1[0]);
    let b = s1[0];
    let l = (b % 16) as int;
    match spec_classify_lead(b) {
        Some(RionFieldType::Short(t)) => {
            assert(s2.subrange(1, 1 + l) =~= s1.subrange(1, 1 + l)) by {
                assert forall|i: int| 0 <= i < l implies #[trigger] s2.subrange(1, 1 + l)[i]
                    == s1.subrange(1, 1 + l)[i] by {
                    assert(s2.subrange(0, n)[i + 1] == s1.subrange(0, n)[i + 1]);
                }
            }
        },
        Some(RionFieldType::Normal(t)) => {
            assert(s2.subrange(1, 1 + l) =~= s1.subrange(1, 1 + l)) by {
                assert forall|i: int| 0 <= i < l implies #[trigger] s2.subrange(1, 1 + l)[i]
                    == s1.subrange(1, 1 + l)[i] by {
                    assert(s2.subrange(0, n)[i + 1] == s1.subrange(0, n)[i + 1]);
                }
            }
            let dl = be_val(s1.subrange(1, 1 + l)) as int;
            if l <= 8 && dl <= usize::MAX && s1.len() >= 1 + l + dl {
                assert(s2.subrange(1 + l, 1 + l + dl) =~= s1.subrange(1 + l, 1 + l + dl)) by {
                    assert forall|i: int| 0 <= i < dl implies #[trigger] s2.subrange(
                        1 + l,
                        1 + l + dl,
                    )[i] == s1.subrange(1 + l, 1 + l + dl)[i] by {
                        assert(s2.subrange(0, n)[i + 1 + l] == s1.subrange(0, n)[i + 1 + l]);
                    }
                }
            }
        },
        _ => {},
    }
}

pub proof fn lemma_int_payload_len(n: nat)
    requires
        n < 0x1_0000_0000_0000_0000,
    ensures
        1 <= int_payload(n).len() <= 8,
{
    crate::num::lemma_be_bytes_len(n);
    crate::num::lemma_pow256_8();
    crate::num::lemma_min_be_len_le(n, 8);
    if n > 0 {
        assert(min_be_len(n) >= 1);
    }
}

} // verus!
