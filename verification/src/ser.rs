//! The serializer: projects host values onto the field grammar.
//!
//! A `Serializer` owns a growing output buffer; every write appends one
//! complete field in canonical form.  Containers are framed through a
//! `SizedSerializer`, which collects children in a scratch buffer and
//! splices them behind the computed length.  `RionSerialize` is the trait a
//! value implements to drive these writes; each implementation states in
//! `encodes_to` which byte strings may stand for a value.

use vstd::prelude::*;
use vstd::seq_lib::*;
use vstd::string::StringSliceAdditionalSpecFns;

use crate::errors::SerializeError;
use crate::field::{
    field_bytes, int_payload, key_field_view, str_field_view, be_fixed, FieldView, NormalField,
    RionField,
};
use crate::types::{
    spec_classify_lead, spec_is_key_type, NormalRionType, RionFieldType, ShortRionType,
};

verus! {

/// A byte sink that receives canonical fields.
pub struct Serializer {
    pub output: Vec<u8>,
}

impl Serializer {
    /// An empty sink.
    pub fn new() -> (r: Serializer)
        ensures
            r.output@ == Seq::<u8>::empty(),
    {
        Serializer { output: Vec::new() }
    }

    /// Appends a boolean field.
    pub fn write_bool(&mut self, v: bool)
        ensures
            final(self).output@ == old(self).output@ + field_bytes(FieldView::Tiny(Some(v))),
    {
        let f = RionField::bool(v);
        f.encode(&mut self.output);
    }

    /// Appends the null field: an empty bytes field of one zero byte.
    pub fn write_null(&mut self)
        ensures
            final(self).output@ == old(self).output@ + field_bytes(
                FieldView::Normal(NormalRionType::Bytes, Seq::<u8>::empty()),
            ),
    {
        self.output.push(0x00);
        proof {
            crate::num::lemma_be_bytes_len(0);
            assert(final(self).output@ =~= old(self).output@ + field_bytes(
                FieldView::Normal(NormalRionType::Bytes, Seq::<u8>::empty()),
            ));
        }
    }

    /// Appends a positive integer field.
    pub fn write_u64(&mut self, v: u64)
        ensures
            final(self).output@ == old(self).output@ + field_bytes(
                FieldView::Short(ShortRionType::Int64Positive, int_payload(v as nat)),
            ),
    {
        let f = RionField::uint64(v);
        f.encode(&mut self.output);
    }

    /// Appends an integer field: the positive tag for non-negative values,
    /// the negative tag with magnitude `-v - 1` below zero.
    pub fn write_i64(&mut self, v: i64)
        ensures
            v >= 0 ==> final(self).output@ == old(self).output@ + field_bytes(
                FieldView::Short(ShortRionType::Int64Positive, int_payload(v as nat)),
            ),
            v < 0 ==> final(self).output@ == old(self).output@ + field_bytes(
                FieldView::Short(ShortRionType::Int64Negative, int_payload((-v - 1) as nat)),
            ),
    {
        let f = RionField::int64(v);
        f.encode(&mut self.output);
    }

    /// Appends a binary32 float field over the given bits.
    pub fn write_f32_bits(&mut self, bits: u32)
        ensures
            final(self).output@ == old(self).output@ + field_bytes(
                FieldView::Short(ShortRionType::Float, be_fixed(bits as nat, 4)),
            ),
    {
        let f = RionField::float32_from_bits(bits);
        f.encode(&mut self.output);
    }

    /// Appends a binary64 float field over the given bits.
    pub fn write_f64_bits(&mut self, bits: u64)
        ensures
            final(self).output@ == old(self).output@ + field_bytes(
                FieldView::Short(ShortRionType::Float, be_fixed(bits as nat, 8)),
            ),
    {
        let f = RionField::float64_from_bits(bits);
        f.encode(&mut self.output);
    }

    /// Appends a UTF-8 string field.
    pub fn write_str(&mut self, v: &str)
        ensures
            final(self).output@ == old(self).output@ + field_bytes(
                str_field_view(v.spec_bytes()),
            ),
    {
        let f = RionField::from_str(v);
        f.encode(&mut self.output);
    }

    /// Appends a one-character string field.
    pub fn write_char(&mut self, c: char)
        ensures
            final(self).output@ == old(self).output@ + field_bytes(
                str_field_view(vstd::utf8::encode_utf8(seq![c])),
            ),
    {
        let s = char_to_string(c);
        self.write_str(s.as_str());
    }

    /// Appends an opaque bytes field.
    pub fn write_bytes(&mut self, v: &[u8])
        ensures
            final(self).output@ == old(self).output@ + field_bytes(
                FieldView::Normal(NormalRionType::Bytes, v@),
            ),
    {
        let f = RionField::bytes(v);
        f.encode(&mut self.output);
    }

    /// Appends a key field over raw bytes.
    pub fn serialize_key(&mut self, key: &[u8]) -> (r: Result<(), SerializeError>)
        ensures
            r is Ok,
            final(self).output@ == old(self).output@ + field_bytes(key_field_view(key@)),
    {
        let f = RionField::key(key);
        f.encode(&mut self.output);
        Ok(())
    }

    /// Serializes one key-value entry as a one-entry object, the shape of a
    /// newtype enum variant.
    pub fn serialize_entry<T: RionSerialize>(&mut self, key: &str, value: &T) -> (r: Result<
        (),
        SerializeError,
    >)
        ensures
            r is Ok ==> exists|t: Seq<u8>|
                #![all_triggers]
                final(self).output@ == old(self).output@ + field_bytes(
                    FieldView::Normal(
                        NormalRionType::Object,
                        field_bytes(key_field_view(key.spec_bytes())) + t,
                    ),
                ) && value.encodes_to(t),
            r is Err ==> *final(self) == *old(self) && value.fails_to_encode(),
    {
        let mut sized = SizedSerializer::new();
        match sized.serialize_key_str(key) {
            Ok(()) => {},
            Err(e) => {
                return Err(e);
            },
        }
        let ghost kb = sized.temp.output@;
        match value.serialize(&mut sized.temp) {
            Ok(()) => {},
            Err(e) => {
                return Err(e);
            },
        }
        let ghost t = sized.temp.output@.skip(kb.len() as int);
        proof {
            assert(kb + t =~= sized.temp.output@);
        }
        sized.finish(NormalRionType::Object, self);
        Ok(())
    }
}

/// Relies on std's `char::to_string`: the one-character string holding
/// exactly the given character.
#[verifier::external_body]
fn char_to_string(c: char) -> (r: String)
    ensures
        r@ == seq![c],
{
    c.to_string()
}

/// What it means for a value to serialize: `encodes_to` holds of every byte
/// string the value's `serialize` may append, and `fails_to_encode` holds
/// of every value on which it may fail, so success is owed wherever
/// `fails_to_encode` is false.  Implementations refine both; unspecified
/// implementations leave `encodes_to` at `true`, promising only that at
/// least one byte is appended, and must keep `fails_to_encode` honest.
pub trait RionSerialize {
    open spec fn encodes_to(&self, bytes: Seq<u8>) -> bool {
        true
    }

    /// The values this implementation may refuse; the library's own
    /// implementations never do.
    open spec fn fails_to_encode(&self) -> bool {
        false
    }

    fn serialize(&self, s: &mut Serializer) -> (r: Result<(), SerializeError>)
        ensures
            r is Ok ==> {
                &&& old(s).output@.len() < final(s).output@.len()
                &&& old(s).output@.is_prefix_of(final(s).output@)
                &&& self.encodes_to(
                    final(s).output@.skip(old(s).output@.len() as int),
                )
            },
            r is Err ==> self.fails_to_encode(),
    ;
}

/// The in-place tag rewrite the serializer applies to a map key's first
/// written field: a short or long string lead becomes the matching key
/// lead, everything else is untouched.
pub open spec fn rewrite_lead_to_key(t: Seq<u8>) -> Seq<u8> {
    if t.len() == 0 {
        t
    } else {
        let h = t[0] / 16;
        let l = t[0] % 16;
        if h == 0x6 {
            t.update(0, (0xE0 + l) as u8)
        } else if h == 0x5 {
            t.update(0, (0xD0 + l) as u8)
        } else {
            t
        }
    }
}

/// A container in progress: children gather in the scratch sink until
/// `finish` frames them behind their length.
pub struct SizedSerializer {
    pub temp: Serializer,
}

impl SizedSerializer {
    /// An empty scratch sink.
    pub fn new() -> (r: SizedSerializer)
        ensures
            r.temp.output@ == Seq::<u8>::empty(),
    {
        SizedSerializer { temp: Serializer::new() }
    }

    /// Serializes one child value into the scratch sink.
    pub fn serialize_value<T: RionSerialize>(&mut self, value: &T) -> (r: Result<
        (),
        SerializeError,
    >)
        ensures
            r is Ok ==> {
                &&& old(self).temp.output@.is_prefix_of(final(self).temp.output@)
                &&& value.encodes_to(
                    final(self).temp.output@.skip(old(self).temp.output@.len() as int),
                )
            },
            r is Err ==> value.fails_to_encode(),
    {
        value.serialize(&mut self.temp)
    }

    /// Serializes a string key into the scratch sink as a key field: the
    /// shortest key form, short up to 15 bytes, the empty key included.
    pub fn serialize_key_str(&mut self, key: &str) -> (r: Result<(), SerializeError>)
        ensures
            r is Ok,
            final(self).temp.output@ == old(self).temp.output@ + field_bytes(
                key_field_view(key.spec_bytes()),
            ),
    {
        let f = RionField::key(key.as_bytes());
        f.encode(&mut self.temp.output);
        Ok(())
    }

    /// Serializes one map key into the scratch sink.  Whatever the key
    /// wrote first must lead with a key tag; a string tag is rewritten in
    /// place to the matching key tag, anything else is `InvalidKeyType`.
    pub fn serialize_key<T: RionSerialize>(&mut self, key: &T) -> (r: Result<(), SerializeError>)
        ensures
            r is Ok ==> {
                &&& old(self).temp.output@.len() < final(self).temp.output@.len()
                &&& final(self).temp.output@.subrange(
                    0,
                    old(self).temp.output@.len() as int,
                ) == old(self).temp.output@
                &&& spec_classify_lead(
                    final(self).temp.output@[old(self).temp.output@.len() as int],
                ) matches Some(t) && spec_is_key_type(t)
                &&& exists|t: Seq<u8>|
                    #![all_triggers]
                    t.len() > 0 && key.encodes_to(t) && final(self).temp.output@ == old(
                        self,
                    ).temp.output@ + rewrite_lead_to_key(t)
            },
            r is Err ==> *final(self) == *old(self) && (key.fails_to_encode() || exists|t: Seq<
                u8,
            >|
                #![all_triggers]
                t.len() > 0 && key.encodes_to(t) && t[0] / 16 != 0x5 && t[0] / 16 != 0x6 && t[0]
                    / 16 != 0xD && t[0] / 16 != 0xE),
    {
        let mut inner = Serializer::new();
        match key.serialize(&mut inner) {
            Ok(()) => {},
            Err(e) => {
                return Err(e);
            },
        }
        let ghost appended = inner.output@;
        proof {
            assert(appended.skip(0) =~= appended);
        }
        let lead = inner.output[0];
        let h = lead / 16;
        let l = lead % 16;
        if h == 0xE || h == 0xD {
            proof {
                assert(rewrite_lead_to_key(appended) == appended);
            }
        } else if h == 0x6 {
            inner.output[0] = 0xE0 + l;
            proof {
                assert(rewrite_lead_to_key(appended) =~= inner.output@);
            }
        } else if h == 0x5 {
            inner.output[0] = 0xD0 + l;
            proof {
                assert(rewrite_lead_to_key(appended) =~= inner.output@);
            }
        } else {
            let e = match RionFieldType::from_byte(lead) {
                Ok(t) => SerializeError::InvalidKeyType(t),
                Err(_) => SerializeError::InvalidKeyType(RionFieldType::Extended),
            };
            return Err(e);
        }
        self.temp.output.extend_from_slice(inner.output.as_slice());
        proof {
            assert(final(self).temp.output@ =~= old(self).temp.output@ + rewrite_lead_to_key(
                appended,
            ));
            assert(final(self).temp.output@.subrange(0, old(self).temp.output@.len() as int)
                =~= old(self).temp.output@);
            assert(final(self).temp.output@[old(self).temp.output@.len() as int]
                == rewrite_lead_to_key(appended)[0]);
        }
        Ok(())
    }

    /// Frames the gathered children as one normal field of the given
    /// container type and appends it to `out`.
    pub fn finish(self, container: NormalRionType, out: &mut Serializer)
        ensures
            final(out).output@ == old(out).output@ + field_bytes(
                FieldView::Normal(container, self.temp.output@),
            ),
    {
        let framed = NormalField::new(container, self.temp.output);
        framed.extend(&mut out.output);
    }
}

/// Serializes a value to its RION bytes.
pub fn to_bytes<T: RionSerialize>(value: &T) -> (r: Result<Vec<u8>, SerializeError>)
    ensures
        r matches Ok(out) ==> value.encodes_to(out@) && out@.len() > 0,
        r is Err ==> value.fails_to_encode(),
{
    let mut serializer = Serializer::new();
    match value.serialize(&mut serializer) {
        Ok(()) => {
            proof {
                assert(serializer.output@.skip(0) =~= serializer.output@);
            }
            Ok(serializer.output)
        },
        Err(e) => Err(e),
    }
}


impl RionSerialize for bool {
    open spec fn encodes_to(&self, bytes: Seq<u8>) -> bool {
        bytes == field_bytes(FieldView::Tiny(Some(*self)))
    }

    fn serialize(&self, s: &mut Serializer) -> (r: Result<(), SerializeError>) {
        s.write_bool(*self);
        proof {
            lemma_extended_by(old(s).output@, s.output@, field_bytes(FieldView::Tiny(Some(*self))));
        }
        Ok(())
    }
}

impl RionSerialize for u64 {
    open spec fn encodes_to(&self, bytes: Seq<u8>) -> bool {
        bytes == field_bytes(FieldView::Short(ShortRionType::Int64Positive, int_payload(*self as nat)))
    }

    fn serialize(&self, s: &mut Serializer) -> (r: Result<(), SerializeError>) {
        s.write_u64(*self);
        proof {
            lemma_extended_by(old(s).output@, s.output@, field_bytes(FieldView::Short(ShortRionType::Int64Positive, int_payload(*self as nat))));
        }
        Ok(())
    }
}

impl RionSerialize for u8 {
    open spec fn encodes_to(&self, bytes: Seq<u8>) -> bool {
        bytes == field_bytes(FieldView::Short(ShortRionType::Int64Positive, int_payload(*self as nat)))
    }

    fn serialize(&self, s: &mut Serializer) -> (r: Result<(), SerializeError>) {
        s.write_u64(*self as u64);
        proof {
            lemma_extended_by(old(s).output@, s.output@, field_bytes(FieldView::Short(ShortRionType::Int64Positive, int_payload(*self as nat))));
        }
        Ok(())
    }
}

impl RionSerialize for u16 {
    open spec fn encodes_to(&self, bytes: Seq<u8>) -> bool {
        bytes == field_bytes(FieldView::Short(ShortRionType::Int64Positive, int_payload(*self as nat)))
    }

    fn serialize(&self, s: &mut Serializer) -> (r: Result<(), SerializeError>) {
        s.write_u64(*self as u64);
        proof {
            lemma_extended_by(old(s).output@, s.output@, field_bytes(FieldView::Short(ShortRionType::Int64Positive, int_payload(*self as nat))));
        }
        Ok(())
    }
}

impl RionSerialize for u32 {
    open spec fn encodes_to(&self, bytes: Seq<u8>) -> bool {
        bytes == field_bytes(FieldView::Short(ShortRionType::Int64Positive, int_payload(*self as nat)))
    }

    fn serialize(&self, s: &mut Serializer) -> (r: Result<(), SerializeError>) {
        s.write_u64(*self as u64);
        proof {
            lemma_extended_by(old(s).output@, s.output@, field_bytes(FieldView::Short(ShortRionType::Int64Positive, int_payload(*self as nat))));
        }
        Ok(())
    }
}

/// The field an `i64` takes: positive or negative tag by sign.
pub open spec fn i64_field(v: int) -> FieldView {
    if v >= 0 {
        FieldView::Short(ShortRionType::Int64Positive, int_payload(v as nat))
    } else {
        FieldView::Short(ShortRionType::Int64Negative, int_payload((-v - 1) as nat))
    }
}

impl RionSerialize for i64 {
    open spec fn encodes_to(&self, bytes: Seq<u8>) -> bool {
        bytes == field_bytes(i64_field(*self as int))
    }

    fn serialize(&self, s: &mut Serializer) -> (r: Result<(), SerializeError>) {
        s.write_i64(*self);
        proof {
            lemma_extended_by(old(s).output@, s.output@, field_bytes(i64_field(*self as int)));
        }
        Ok(())
    }
}

impl RionSerialize for i8 {
    open spec fn encodes_to(&self, bytes: Seq<u8>) -> bool {
        bytes == field_bytes(i64_field(*self as int))
    }

    fn serialize(&self, s: &mut Serializer) -> (r: Result<(), SerializeError>) {
        s.write_i64(*self as i64);
        proof {
            lemma_extended_by(old(s).output@, s.output@, field_bytes(i64_field(*self as int)));
        }
        Ok(())
    }
}

impl RionSerialize for i16 {
    open spec fn encodes_to(&self, bytes: Seq<u8>) -> bool {
        bytes == field_bytes(i64_field(*self as int))
    }

    fn serialize(&self, s: &mut Serializer) -> (r: Result<(), SerializeError>) {
        s.write_i64(*self as i64);
        proof {
            lemma_extended_by(old(s).output@, s.output@, field_bytes(i64_field(*self as int)));
        }
        Ok(())
    }
}

impl RionSerialize for i32 {
    open spec fn encodes_to(&self, bytes: Seq<u8>) -> bool {
        bytes == field_bytes(i64_field(*self as int))
    }

    fn serialize(&self, s: &mut Serializer) -> (r: Result<(), SerializeError>) {
        s.write_i64(*self as i64);
        proof {
            lemma_extended_by(old(s).output@, s.output@, field_bytes(i64_field(*self as int)));
        }
        Ok(())
    }
}

impl RionSerialize for char {
    open spec fn encodes_to(&self, bytes: Seq<u8>) -> bool {
        bytes == field_bytes(str_field_view(vstd::utf8::encode_utf8(seq![*self])))
    }

    fn serialize(&self, s: &mut Serializer) -> (r: Result<(), SerializeError>) {
        s.write_char(*self);
        proof {
            lemma_extended_by(old(s).output@, s.output@, field_bytes(str_field_view(vstd::utf8::encode_utf8(seq![*self]))));
        }
        Ok(())
    }
}

impl RionSerialize for String {
    open spec fn encodes_to(&self, bytes: Seq<u8>) -> bool {
        bytes == field_bytes(str_field_view(vstd::utf8::encode_utf8(self@)))
    }

    fn serialize(&self, s: &mut Serializer) -> (r: Result<(), SerializeError>) {
        s.write_str(self.as_str());
        proof {
            lemma_extended_by(old(s).output@, s.output@, field_bytes(str_field_view(vstd::utf8::encode_utf8(self@))));
        }
        Ok(())
    }
}

impl RionSerialize for str {
    open spec fn encodes_to(&self, bytes: Seq<u8>) -> bool {
        bytes == field_bytes(str_field_view(vstd::utf8::encode_utf8(self@)))
    }

    fn serialize(&self, s: &mut Serializer) -> (r: Result<(), SerializeError>) {
        s.write_str(self);
        proof {
            lemma_extended_by(old(s).output@, s.output@, field_bytes(str_field_view(vstd::utf8::encode_utf8(self@))));
        }
        Ok(())
    }
}

impl<'a, T: RionSerialize + ?Sized> RionSerialize for &'a T {
    /// A reference serializes as what it points to.
    open spec fn encodes_to(&self, bytes: Seq<u8>) -> bool {
        (**self).encodes_to(bytes)
    }

    open spec fn fails_to_encode(&self) -> bool {
        (**self).fails_to_encode()
    }

    fn serialize(&self, s: &mut Serializer) -> (r: Result<(), SerializeError>) {
        (**self).serialize(s)
    }
}

impl<T: RionSerialize> RionSerialize for Option<T> {
    /// Nothing serializes as the null field; a value serializes as itself.
    open spec fn encodes_to(&self, bytes: Seq<u8>) -> bool {
        match self {
            None => bytes == field_bytes(
                FieldView::Normal(NormalRionType::Bytes, Seq::<u8>::empty()),
            ),
            Some(v) => v.encodes_to(bytes),
        }
    }

    open spec fn fails_to_encode(&self) -> bool {
        match self {
            None => false,
            Some(v) => v.fails_to_encode(),
        }
    }

    fn serialize(&self, s: &mut Serializer) -> (r: Result<(), SerializeError>) {
        match self {
            None => {
                s.write_null();
                proof {
                    lemma_extended_by(
                        old(s).output@,
                        s.output@,
                        field_bytes(FieldView::Normal(NormalRionType::Bytes, Seq::<u8>::empty())),
                    );
                }
                Ok(())
            },
            Some(v) => v.serialize(s),
        }
    }
}

/// Element-wise encoding of a sequence of values into a window.
pub open spec fn seq_encodes_to<T: RionSerialize>(els: Seq<T>, w: Seq<u8>) -> bool
    decreases els.len(),
{
    if els.len() == 0 {
        w.len() == 0
    } else {
        exists|k: int|
            #![all_triggers]
            0 < k <= w.len() && els[0].encodes_to(w.subrange(0, k)) && seq_encodes_to(
                els.drop_first(),
                w.skip(k),
            )
    }
}

/// Extending the window by one value's encoding extends the sequence.
proof fn lemma_seq_encodes_push<T: RionSerialize>(els: Seq<T>, w: Seq<u8>, x: T, t: Seq<u8>)
    requires
        seq_encodes_to(els, w),
        x.encodes_to(t),
        t.len() > 0,
    ensures
        seq_encodes_to(els.push(x), w + t),
    decreases els.len(),
{
    if els.len() == 0 {
        assert(w.len() == 0);
        let q = els.push(x);
        assert(q[0] == x);
        assert((w + t).subrange(0, t.len() as int) =~= t);
        assert((w + t).skip(t.len() as int) =~= Seq::<u8>::empty());
        assert(q.drop_first() =~= Seq::<T>::empty());
        assert(seq_encodes_to(q.drop_first(), (w + t).skip(t.len() as int)));
        assert(0 < t.len() <= (w + t).len() && q[0].encodes_to((w + t).subrange(0, t.len() as int))
            && seq_encodes_to(q.drop_first(), (w + t).skip(t.len() as int)));
    } else {
        let k = choose|k: int|
            #![all_triggers]
            0 < k <= w.len() && els[0].encodes_to(w.subrange(0, k)) && seq_encodes_to(
                els.drop_first(),
                w.skip(k),
            );
        lemma_seq_encodes_push(els.drop_first(), w.skip(k), x, t);
        let q = els.push(x);
        assert(q[0] == els[0]);
        assert((w + t).subrange(0, k) =~= w.subrange(0, k));
        assert((w + t).skip(k) =~= w.skip(k) + t);
        assert(q.drop_first() =~= els.drop_first().push(x));
        assert(0 < k <= (w + t).len() && q[0].encodes_to((w + t).subrange(0, k)) && seq_encodes_to(
            q.drop_first(),
            (w + t).skip(k),
        ));
    }
}

impl<T: RionSerialize> RionSerialize for Vec<T> {
    /// A vector serializes as an array framing its elements in order.
    open spec fn encodes_to(&self, bytes: Seq<u8>) -> bool {
        exists|w: Seq<u8>|
            #![all_triggers]
            bytes == field_bytes(FieldView::Normal(NormalRionType::Array, w)) && seq_encodes_to(
                self@,
                w,
            )
    }

    open spec fn fails_to_encode(&self) -> bool {
        exists|i: int| 0 <= i < self@.len() && (#[trigger] self@[i]).fails_to_encode()
    }

    fn serialize(&self, s: &mut Serializer) -> (r: Result<(), SerializeError>) {
        let mut sized = SizedSerializer::new();
        let mut i: usize = 0;
        proof {
            assert(self@.take(0) =~= Seq::<T>::empty());
        }
        while i < self.len()
            invariant
                i <= self@.len(),
                seq_encodes_to(self@.take(i as int), sized.temp.output@),
            decreases self@.len() - i,
        {
            let ghost pre = sized.temp.output@;
            match (&self[i]).serialize(&mut sized.temp) {
                Ok(()) => {},
                Err(e) => {
                    return Err(e);
                },
            }
            proof {
                let t = sized.temp.output@.skip(pre.len() as int);
                assert(pre + t =~= sized.temp.output@);
                lemma_seq_encodes_push(self@.take(i as int), pre, self@[i as int], t);
                assert(self@.take(i + 1) =~= self@.take(i as int).push(self@[i as int]));
            }
            i = i + 1;
        }
        proof {
            assert(self@.take(self@.len() as int) =~= self@);
        }
        let ghost w = sized.temp.output@;
        sized.finish(NormalRionType::Array, s);
        proof {
            let fb = field_bytes(FieldView::Normal(NormalRionType::Array, w));
            lemma_extended_by(old(s).output@, s.output@, fb);
            assert(s.output@.skip(old(s).output@.len() as int) == fb && seq_encodes_to(self@, w));
        }
        Ok(())
    }
}

impl<T1: RionSerialize, T2: RionSerialize> RionSerialize for (T1, T2) {
    /// A pair serializes as a two-element array.
    open spec fn encodes_to(&self, bytes: Seq<u8>) -> bool {
        exists|k: int, w: Seq<u8>|
            #![all_triggers]
            bytes == field_bytes(FieldView::Normal(NormalRionType::Array, w)) && 0 < k <= w.len()
                && self.0.encodes_to(w.subrange(0, k)) && self.1.encodes_to(w.skip(k))
    }

    open spec fn fails_to_encode(&self) -> bool {
        self.0.fails_to_encode() || self.1.fails_to_encode()
    }

    fn serialize(&self, s: &mut Serializer) -> (r: Result<(), SerializeError>) {
        let mut sized = SizedSerializer::new();
        match self.0.serialize(&mut sized.temp) {
            Ok(()) => {},
            Err(e) => {
                return Err(e);
            },
        }
        let ghost k = sized.temp.output@.len() as int;
        let ghost m = sized.temp.output@;
        proof {
            assert(m.skip(0) =~= m);
        }
        match self.1.serialize(&mut sized.temp) {
            Ok(()) => {},
            Err(e) => {
                return Err(e);
            },
        }
        let ghost w = sized.temp.output@;
        proof {
            assert(w.subrange(0, k) =~= m);
            assert(self.0.encodes_to(w.subrange(0, k)));
        }
        sized.finish(NormalRionType::Array, s);
        proof {
            let fb = field_bytes(FieldView::Normal(NormalRionType::Array, w));
            lemma_extended_by(old(s).output@, s.output@, fb);
            assert(s.output@.skip(old(s).output@.len() as int) == fb && 0 < k <= w.len()
                && self.0.encodes_to(w.subrange(0, k)) && self.1.encodes_to(w.skip(k)));
        }
        Ok(())
    }
}

/// A buffer extended from `pre` by `t` skips back to `t` and keeps `pre`
/// as a prefix.
pub proof fn lemma_extended_by(pre: Seq<u8>, whole: Seq<u8>, t: Seq<u8>)
    requires
        whole == pre + t,
    ensures
        whole.skip(pre.len() as int) == t,
        pre.is_prefix_of(whole),
        whole.subrange(0, pre.len() as int) == pre,
{
    assert(whole.skip(pre.len() as int) =~= t);
    assert(whole.subrange(0, pre.len() as int) =~= pre);
}

} // verus!
