//! The deserializer: pulls tagged fields off a byte buffer and projects
//! them onto host values.
//!
//! A `Deserializer` walks its input once; containers hand out a bounded
//! sub-deserializer over their payload window, which must be consumed
//! exactly.  `RionDeserialize` is the trait a value implements to be read
//! back; each implementation states in `decodes_from` which byte strings
//! yield a value.

use vstd::prelude::*;
use vstd::slice::{slice_subrange, slice_to_vec};

use crate::errors::DeserializeError;
use crate::field::{spec_parse_field, spec_parse_field_err, FieldView, RionField};
use crate::num::be_val;
use crate::types::{
    spec_classify_lead, spec_is_key_type, spec_is_str_type, LeadByte, NormalRionType,
    RionFieldType, ShortRionType,
};

verus! {

/// A cursor over the bytes being decoded.
pub struct Deserializer {
    data: Vec<u8>,
    pos: usize,
}

impl Deserializer {
    /// The cursor never passes the end.
    pub closed spec fn wf(&self) -> bool {
        self.pos <= self.data@.len()
    }

    /// The bytes not yet consumed.
    pub closed spec fn remaining(&self) -> Seq<u8> {
        self.data@.skip(self.pos as int)
    }

    /// A cursor at the start of a copy of `data`.
    pub fn new(data: &[u8]) -> (r: Deserializer)
        ensures
            r.wf(),
            r.remaining() == data@,
    {
        let d = Deserializer { data: slice_to_vec(data), pos: 0 };
        proof {
            assert(d.remaining() =~= data@);
        }
        d
    }

    /// A cursor over an owned payload window.
    pub fn from_vec(data: Vec<u8>) -> (r: Deserializer)
        ensures
            r.wf(),
            r.remaining() == data@,
    {
        let d = Deserializer { data, pos: 0 };
        proof {
            assert(d.remaining() =~= d.data@);
        }
        d
    }

    /// True when everything has been consumed.
    pub fn is_empty(&self) -> (r: bool)
        requires
            self.wf(),
        ensures
            r == (self.remaining().len() == 0),
    {
        self.pos == self.data.len()
    }

    /// Takes the next raw byte, if one remains.
    pub fn next_byte(&mut self) -> (r: Option<u8>)
        requires
            old(self).wf(),
        ensures
            final(self).wf(),
            r is None ==> old(self).remaining().len() == 0 && *final(self) == *old(self),
            r is Some ==> old(self).remaining().len() > 0 && r == Some(old(self).remaining()[0])
                && final(self).remaining() == old(self).remaining().skip(1),
    {
        if self.pos == self.data.len() {
            return None;
        }
        let b = self.data[self.pos];
        self.pos = self.pos + 1;
        proof {
            assert(final(self).remaining() =~= old(self).remaining().skip(1));
        }
        Some(b)
    }

    /// Classifies the next lead byte without consuming it; `None` when no
    /// bytes remain or the lead is invalid.
    pub fn peek_lead(&self) -> (r: Option<LeadByte>)
        requires
            self.wf(),
        ensures
            r is Some <==> self.remaining().len() > 0 && spec_classify_lead(
                self.remaining()[0],
            ) is Some,
            r is Some ==> r == Some(
                LeadByte(
                    spec_classify_lead(self.remaining()[0])->Some_0,
                    (self.remaining()[0] % 16) as u8,
                ),
            ),
    {
        if self.pos == self.data.len() {
            return None;
        }
        let b = self.data[self.pos];
        match LeadByte::from_byte(b) {
            Ok(l) => Some(l),
            Err(_) => None,
        }
    }

    /// Classifies and consumes the next lead byte.
    pub fn next_lead(&mut self) -> (r: Option<LeadByte>)
        requires
            old(self).wf(),
        ensures
            final(self).wf(),
            r is None ==> *final(self) == *old(self) && (old(self).remaining().len() == 0
                || spec_classify_lead(old(self).remaining()[0]) is None),
            r is Some ==> old(self).remaining().len() > 0 && spec_classify_lead(
                old(self).remaining()[0],
            ) is Some && r == Some(
                LeadByte(
                    spec_classify_lead(old(self).remaining()[0])->Some_0,
                    (old(self).remaining()[0] % 16) as u8,
                ),
            ) && final(self).remaining() == old(self).remaining().skip(1),
    {
        match self.peek_lead() {
            Some(lead) => {
                proof {
                    assert(self.remaining().len() > 0);
                    vstd::std_specs::vec::axiom_spec_len(&self.data);
                }
                self.pos = self.pos + 1;
                proof {
                    assert(final(self).remaining() =~= old(self).remaining().skip(1));
                }
                Some(lead)
            },
            None => None,
        }
    }

    /// Parses one whole field off the cursor.  Agrees exactly with the
    /// mathematical field parser on the remaining bytes.
    pub fn parse_field(&mut self) -> (r: Result<RionField, DeserializeError>)
        requires
            old(self).wf(),
        ensures
            final(self).wf(),
            match r {
                Ok(f) => {
                    &&& spec_parse_field(old(self).remaining()) is Some
                    &&& f@ == spec_parse_field(old(self).remaining())->Some_0.0
                    &&& f.wf()
                    &&& final(self).remaining() == old(self).remaining().skip(
                        spec_parse_field(old(self).remaining())->Some_0.1,
                    )
                    &&& 1 <= spec_parse_field(old(self).remaining())->Some_0.1 <= old(
                        self,
                    ).remaining().len()
                },
                Err(e) => spec_parse_field(old(self).remaining()) is None && e
                    == spec_parse_field_err(old(self).remaining()) && *final(self) == *old(self),
            },
    {
        let rem_len = self.data.len() - self.pos;
        let input = slice_subrange(self.data.as_slice(), self.pos, self.data.len());
        proof {
            assert(input@ == old(self).remaining());
        }
        match RionField::parse(input) {
            Ok((f, rest)) => {
                let consumed = rem_len - rest.len();
                proof {
                    crate::field::lemma_parse_field_bounds(old(self).remaining());
                }
                self.pos = self.pos + consumed;
                proof {
                    assert(final(self).remaining() =~= old(self).remaining().skip(
                        spec_parse_field(old(self).remaining())->Some_0.1,
                    ));
                }
                Ok(f)
            },
            Err(e) => Err(e),
        }
    }

    /// Reads a key field's name for object decoding: `None` when no bytes
    /// remain or the next field is not a key, the key's string otherwise.
    pub fn next_key(&mut self) -> (r: Result<Option<String>, DeserializeError>)
        requires
            old(self).wf(),
        ensures
            final(self).wf(),
            match r {
                Ok(None) => *final(self) == *old(self) && (old(self).remaining().len() == 0
                    || spec_classify_lead(old(self).remaining()[0]) is None || !spec_is_key_type(
                    spec_classify_lead(old(self).remaining()[0])->Some_0,
                )),
                Ok(Some(name)) => {
                    &&& spec_parse_field(old(self).remaining()) is Some
                    &&& spec_parse_field(old(self).remaining())->Some_0.0.is_key()
                    &&& vstd::utf8::valid_utf8(
                        spec_parse_field(old(self).remaining())->Some_0.0.data(),
                    )
                    &&& name@ == vstd::utf8::decode_utf8(
                        spec_parse_field(old(self).remaining())->Some_0.0.data(),
                    )
                    &&& final(self).remaining() == old(self).remaining().skip(
                        spec_parse_field(old(self).remaining())->Some_0.1,
                    )
                },
                Err(e) => true,
            },
    {
        let lead = match self.peek_lead() {
            Some(l) => l,
            None => {
                return Ok(None);
            },
        };
        if !lead.field_type().is_key() {
            return Ok(None);
        }
        let field = match self.parse_field() {
            Ok(f) => f,
            Err(e) => {
                return Err(e);
            },
        };
        match field.as_str() {
            Some(s) => {
                proof {
                    let pre = old(self).remaining();
                    let f0 = spec_parse_field(pre)->Some_0.0;
                    assert(field@ == f0);
                    assert(spec_classify_lead(pre[0]) is Some);
                    assert(f0.field_type() == spec_classify_lead(pre[0])->Some_0);
                }
                Ok(Some(s))
            },
            None => Err(DeserializeError::InvalidUtf8),
        }
    }

    /// Reads a string or key field as an enum variant label.
    pub fn read_label(&mut self) -> (r: Result<String, DeserializeError>)
        requires
            old(self).wf(),
        ensures
            final(self).wf(),
            match r {
                Ok(name) => {
                    &&& spec_parse_field(old(self).remaining()) is Some
                    &&& spec_is_key_type(
                        spec_parse_field(old(self).remaining())->Some_0.0.field_type(),
                    ) || spec_is_str_type(
                        spec_parse_field(old(self).remaining())->Some_0.0.field_type(),
                    )
                    &&& vstd::utf8::valid_utf8(
                        spec_parse_field(old(self).remaining())->Some_0.0.data(),
                    )
                    &&& name@ == vstd::utf8::decode_utf8(
                        spec_parse_field(old(self).remaining())->Some_0.0.data(),
                    )
                    &&& final(self).remaining() == old(self).remaining().skip(
                        spec_parse_field(old(self).remaining())->Some_0.1,
                    )
                },
                Err(e) => old(self).remaining().len() == 0 || spec_classify_lead(
                    old(self).remaining()[0],
                ) is None || !(spec_is_key_type(
                    spec_classify_lead(old(self).remaining()[0])->Some_0,
                ) || spec_is_str_type(spec_classify_lead(old(self).remaining()[0])->Some_0))
                    || spec_parse_field(old(self).remaining()) is None || !vstd::utf8::valid_utf8(
                    spec_parse_field(old(self).remaining())->Some_0.0.data(),
                ),
            },
    {
        let lead = match self.peek_lead() {
            Some(l) => l,
            None => {
                return Err(DeserializeError::InvalidEnum);
            },
        };
        if !lead.field_type().is_label() {
            return Err(DeserializeError::InvalidEnum);
        }
        let field = match self.parse_field() {
            Ok(f) => f,
            Err(e) => {
                return Err(e);
            },
        };
        match field.as_str() {
            Some(s) => {
                proof {
                    let pre = old(self).remaining();
                    let f0 = spec_parse_field(pre)->Some_0.0;
                    assert(field@ == f0);
                    assert(spec_classify_lead(pre[0]) is Some);
                    assert(f0.field_type() == spec_classify_lead(pre[0])->Some_0);
                }
                Ok(s)
            },
            None => Err(DeserializeError::InvalidUtf8),
        }
    }

    /// Consumes an object field and hands back a cursor bounded to its
    /// payload window.
    pub fn take_object_window(&mut self) -> (r: Result<Deserializer, DeserializeError>)
        requires
            old(self).wf(),
        ensures
            final(self).wf(),
            match r {
                Ok(sub) => {
                    &&& sub.wf()
                    &&& spec_parse_field(old(self).remaining()) is Some
                    &&& spec_parse_field(old(self).remaining())->Some_0.0 == FieldView::Normal(
                        NormalRionType::Object,
                        sub.remaining(),
                    )
                    &&& final(self).remaining() == old(self).remaining().skip(
                        spec_parse_field(old(self).remaining())->Some_0.1,
                    )
                    &&& 1 <= spec_parse_field(old(self).remaining())->Some_0.1 <= old(
                        self,
                    ).remaining().len()
                },
                Err(e) => match spec_parse_field(old(self).remaining()) {
                    None => e == spec_parse_field_err(old(self).remaining()) && *final(self)
                        == *old(self),
                    Some((f, n)) => f.field_type() != RionFieldType::Normal(NormalRionType::Object) && e
                        == DeserializeError::WrongType(
                        RionFieldType::Normal(NormalRionType::Object),
                        f.field_type(),
                    ) && final(self).remaining() == old(self).remaining().skip(n),
                },
            },
    {
        self.take_window(NormalRionType::Object)
    }

    /// Consumes an array field and hands back a cursor bounded to its
    /// payload window.
    pub fn take_array_window(&mut self) -> (r: Result<Deserializer, DeserializeError>)
        requires
            old(self).wf(),
        ensures
            final(self).wf(),
            match r {
                Ok(sub) => {
                    &&& sub.wf()
                    &&& spec_parse_field(old(self).remaining()) is Some
                    &&& spec_parse_field(old(self).remaining())->Some_0.0 == FieldView::Normal(
                        NormalRionType::Array,
                        sub.remaining(),
                    )
                    &&& final(self).remaining() == old(self).remaining().skip(
                        spec_parse_field(old(self).remaining())->Some_0.1,
                    )
                    &&& 1 <= spec_parse_field(old(self).remaining())->Some_0.1 <= old(
                        self,
                    ).remaining().len()
                },
                Err(e) => match spec_parse_field(old(self).remaining()) {
                    None => e == spec_parse_field_err(old(self).remaining()) && *final(self)
                        == *old(self),
                    Some((f, n)) => f.field_type() != RionFieldType::Normal(NormalRionType::Array) && e
                        == DeserializeError::WrongType(
                        RionFieldType::Normal(NormalRionType::Array),
                        f.field_type(),
                    ) && final(self).remaining() == old(self).remaining().skip(n),
                },
            },
    {
        self.take_window(NormalRionType::Array)
    }

    /// Consumes a normal field of the demanded container type and hands
    /// back a cursor over its payload window.
    pub fn take_window(&mut self, want: NormalRionType) -> (r: Result<
        Deserializer,
        DeserializeError,
    >)
        requires
            old(self).wf(),
        ensures
            final(self).wf(),
            match r {
                Ok(sub) => {
                    &&& sub.wf()
                    &&& spec_parse_field(old(self).remaining()) is Some
                    &&& spec_parse_field(old(self).remaining())->Some_0.0 == FieldView::Normal(
                        want,
                        sub.remaining(),
                    )
                    &&& final(self).remaining() == old(self).remaining().skip(
                        spec_parse_field(old(self).remaining())->Some_0.1,
                    )
                    &&& 1 <= spec_parse_field(old(self).remaining())->Some_0.1 <= old(
                        self,
                    ).remaining().len()
                },
                Err(e) => match spec_parse_field(old(self).remaining()) {
                    None => e == spec_parse_field_err(old(self).remaining()) && *final(self)
                        == *old(self),
                    Some((f, n)) => f.field_type() != RionFieldType::Normal(want) && e
                        == DeserializeError::WrongType(
                        RionFieldType::Normal(want),
                        f.field_type(),
                    ) && final(self).remaining() == old(self).remaining().skip(n),
                },
            },
    {
        let field = match self.parse_field() {
            Ok(f) => f,
            Err(e) => {
                return Err(e);
            },
        };
        match field {
            RionField::Normal(nf) => {
                if nf.field_type.to_byte() != want.to_byte() {
                    return Err(
                        DeserializeError::WrongType(
                            RionFieldType::Normal(want),
                            RionFieldType::Normal(nf.field_type),
                        ),
                    );
                }
                proof {
                    crate::types::lemma_normal_nibble_inj(nf.field_type, want);
                }
                match (RionField::Normal(nf)).to_data() {
                    Some(d) => Ok(Deserializer::from_vec(d)),
                    None => {
                        proof {
                            assert(false);
                        }
                        Err(DeserializeError::ExtraData)
                    },
                }
            },
            other => Err(
                DeserializeError::WrongType(RionFieldType::Normal(want), other.field_type()),
            ),
        }
    }
}

/// What it means for a value to decode: `decodes_from` holds of the byte
/// string a successful `deserialize` consumed, and `fails_on` holds of
/// every input on which it may fail, so success is owed wherever `fails_on`
/// is false.  Implementations refine both; unspecified implementations
/// leave them at `true` and promise nothing.
pub trait RionDeserialize: Sized {
    open spec fn decodes_from(bytes: Seq<u8>, v: Self) -> bool {
        true
    }

    /// The inputs this implementation may refuse; the library's own
    /// implementations name their exact failure sets.
    open spec fn fails_on(bytes: Seq<u8>) -> bool {
        true
    }

    /// Whether a single raw byte inside a bytes field stands for a value of
    /// this type; only byte-like types say yes.
    open spec fn raw_byte_decodes(b: u8, v: Self) -> bool {
        false
    }

    /// Whether reading a single raw byte of a bytes field may fail; false
    /// only for byte-like types, which read every byte.
    open spec fn raw_byte_fails(b: u8) -> bool {
        true
    }

    /// Projects one raw byte of a bytes field onto this type, for the
    /// byte-per-element reading of opaque byte payloads; only byte-like
    /// types yield anything.
    fn from_raw_byte(b: u8) -> (r: Option<Self>)
        ensures
            r matches Some(v) ==> Self::raw_byte_decodes(b, v),
            r is None ==> Self::raw_byte_fails(b),
    ;

    fn deserialize(de: &mut Deserializer) -> (r: Result<Self, DeserializeError>)
        requires
            old(de).wf(),
        ensures
            final(de).wf(),
            r matches Ok(v) ==> exists|n: int|
                #![all_triggers]
                1 <= n <= old(de).remaining().len() && final(de).remaining() == old(
                    de,
                ).remaining().skip(n) && Self::decodes_from(old(de).remaining().subrange(0, n), v),
            r is Err ==> Self::fails_on(old(de).remaining()),
    ;
}

/// Restricting the input to the consumed prefix parses to the same field.
pub proof fn lemma_parse_field_restrict(s: Seq<u8>)
    requires
        spec_parse_field(s) is Some,
    ensures
        spec_parse_field(s.subrange(0, spec_parse_field(s)->Some_0.1)) == spec_parse_field(s),
{
    let n = spec_parse_field(s)->Some_0.1;
    crate::field::lemma_parse_field_bounds(s);
    let s2 = s.subrange(0, n);
    assert(s2.subrange(0, n) =~= s.subrange(0, n));
    crate::field::lemma_parse_field_prefix(s, s2);
}

/// Decodes a value from its RION bytes, which it must take in full;
/// trailing bytes are `ExtraData`.  Fails only where the type's own
/// failure set says so, or where a decode succeeds without consuming
/// everything.
pub fn from_bytes<T: RionDeserialize>(data: &[u8]) -> (r: Result<T, DeserializeError>)
    ensures
        r matches Ok(v) ==> T::decodes_from(data@, v),
        r is Err ==> T::fails_on(data@) || (exists|n: int, v: T|
            #![all_triggers]
            1 <= n < data@.len() && T::decodes_from(data@.subrange(0, n), v)),
{
    let mut de = Deserializer::new(data);
    let value = match T::deserialize(&mut de) {
        Ok(v) => v,
        Err(e) => {
            return Err(e);
        },
    };
    if !de.is_empty() {
        proof {
            let n = choose|n: int|
                #![all_triggers]
                1 <= n <= data@.len() && de.remaining() == data@.skip(n) && T::decodes_from(
                    data@.subrange(0, n),
                    value,
                );
            assert(data@.skip(n).len() > 0);
            assert(1 <= n < data@.len() && T::decodes_from(data@.subrange(0, n), value));
        }
        return Err(DeserializeError::ExtraData);
    }
    proof {
        let n = choose|n: int|
            #![all_triggers]
            1 <= n <= data@.len() && de.remaining() == data@.skip(n) && T::decodes_from(
                data@.subrange(0, n),
                value,
            );
        assert(data@.skip(n).len() == 0);
        assert(data@.subrange(0, n) =~= data@);
    }
    Ok(value)
}


/// Whether a field shape is null: the null boolean or any empty payload.
pub open spec fn field_is_null(f: FieldView) -> bool {
    match f {
        FieldView::Tiny(v) => v is None,
        FieldView::Short(_, d) => d.len() == 0,
        FieldView::Normal(_, d) => d.len() == 0,
    }
}

/// Relies on std's `str::chars`: the first character of a string, if any.
#[verifier::external_body]
fn first_char(s: &str) -> (r: Option<char>)
    ensures
        r is Some <==> s@.len() > 0,
        r is Some ==> r == Some(s@[0]),
{
    s.chars().next()
}

/// From a consumed-prefix decode of a `u64`, the whole remaining input
/// parses to the same positive integer field.
proof fn lemma_narrow_fails_witness(pre: Seq<u8>, cur: Seq<u8>, w: u64)
    requires
        exists|n: int|
            #![all_triggers]
            1 <= n <= pre.len() && cur == pre.skip(n) && <u64 as RionDeserialize>::decodes_from(
                pre.subrange(0, n),
                w,
            ),
    ensures
        spec_parse_field(pre) matches Some((f, n2)) && f matches FieldView::Short(
            ShortRionType::Int64Positive,
            d,
        ) && d.len() <= 8 && be_val(d) == w,
{
    let n = choose|n: int|
        #![all_triggers]
        1 <= n <= pre.len() && cur == pre.skip(n) && <u64 as RionDeserialize>::decodes_from(
            pre.subrange(0, n),
            w,
        );
    let sub = pre.subrange(0, n);
    assert(sub.subrange(0, n) =~= pre.subrange(0, n));
    crate::field::lemma_parse_field_prefix(sub, pre);
}

/// From a consumed-prefix decode of an `i64`, the whole remaining input
/// parses to the same integer field, whose magnitude the value determines.
proof fn lemma_narrow_fails_witness_signed(pre: Seq<u8>, cur: Seq<u8>, w: i64)
    requires
        exists|n: int|
            #![all_triggers]
            1 <= n <= pre.len() && cur == pre.skip(n) && <i64 as RionDeserialize>::decodes_from(
                pre.subrange(0, n),
                w,
            ),
    ensures
        spec_parse_field(pre) matches Some((f, n2)) && match f {
            FieldView::Short(ShortRionType::Int64Positive, d) => w >= 0 && be_val(d) == w,
            FieldView::Short(ShortRionType::Int64Negative, d) => w < 0 && be_val(d) == -(w as int)
                - 1,
            _ => false,
        },
{
    let n = choose|n: int|
        #![all_triggers]
        1 <= n <= pre.len() && cur == pre.skip(n) && <i64 as RionDeserialize>::decodes_from(
            pre.subrange(0, n),
            w,
        );
    let sub = pre.subrange(0, n);
    assert(sub.subrange(0, n) =~= pre.subrange(0, n));
    crate::field::lemma_parse_field_prefix(sub, pre);
}

/// A valid lead that is null heads a field the parser always accepts: null
/// fields are exactly one byte.
proof fn lemma_null_head_parses(s: Seq<u8>)
    requires
        s.len() > 0,
        spec_classify_lead(s[0]) is Some,
        !(spec_classify_lead(s[0])->Some_0 is Extended),
        crate::types::spec_lead_is_null(
            LeadByte(spec_classify_lead(s[0])->Some_0, (s[0] % 16) as u8),
        ),
    ensures
        spec_parse_field(s) is Some,
{
    let b = s[0];
    let l = (b % 16) as int;
    assert((b % 16) % 16 == b % 16);
    match spec_classify_lead(b)->Some_0 {
        RionFieldType::Bool(v) => {},
        RionFieldType::Short(t) => {
            assert(l == 0);
        },
        RionFieldType::Normal(t) => {
            assert(l == 0);
            assert(s.subrange(1, 1) =~= Seq::<u8>::empty());
        },
        RionFieldType::Extended => {},
    }
}

impl RionDeserialize for u64 {
    /// One whole positive integer field of at most 8 magnitude bytes.
    open spec fn decodes_from(bytes: Seq<u8>, v: u64) -> bool {
        &&& spec_parse_field(bytes) matches Some((f, n))
        &&& n == bytes.len()
        &&& f matches FieldView::Short(ShortRionType::Int64Positive, d)
        &&& d.len() <= 8
        &&& v == be_val(d)
    }

    /// Fails exactly where the head is not a positive integer field of at
    /// most 8 magnitude bytes.
    open spec fn fails_on(bytes: Seq<u8>) -> bool {
        !(spec_parse_field(bytes) matches Some((f, n)) && f matches FieldView::Short(
            ShortRionType::Int64Positive,
            d,
        ) && d.len() <= 8)
    }

    fn from_raw_byte(b: u8) -> (r: Option<Self>) {
        None
    }

    fn deserialize(de: &mut Deserializer) -> (r: Result<u64, DeserializeError>) {
        let ghost pre = old(de).remaining();
        let f = match de.parse_field() {
            Ok(f) => f,
            Err(e) => {
                return Err(e);
            },
        };
        match f {
            RionField::Short(sf) => match sf.as_pos_int() {
                Some(v) => {
                    proof {
                        let n = spec_parse_field(pre)->Some_0.1;
                        lemma_parse_field_restrict(pre);
                        crate::num::lemma_be_val_fits_u64(sf@.data());
                        assert(1 <= n <= pre.len() && final(de).remaining() == pre.skip(n)
                            && Self::decodes_from(pre.subrange(0, n), v));
                    }
                    Ok(v)
                },
                None => Err(
                    DeserializeError::WrongType(
                        RionFieldType::Short(ShortRionType::Int64Positive),
                        RionFieldType::Short(sf.field_type),
                    ),
                ),
            },
            other => Err(
                DeserializeError::WrongType(
                    RionFieldType::Short(ShortRionType::Int64Positive),
                    other.field_type(),
                ),
            ),
        }
    }
}

impl RionDeserialize for u8 {
    /// One positive integer field whose value fits this width.
    open spec fn decodes_from(bytes: Seq<u8>, v: u8) -> bool {
        exists|w: u64| #[trigger] <u64 as RionDeserialize>::decodes_from(bytes, w) && w <= u8::MAX && v == w
    }

    /// Fails exactly where a whole positive integer cannot be read or its
    /// value exceeds this width.
    open spec fn fails_on(bytes: Seq<u8>) -> bool {
        <u64 as RionDeserialize>::fails_on(bytes) || (spec_parse_field(bytes) matches Some(
            (f, n),
        ) && f matches FieldView::Short(ShortRionType::Int64Positive, d) && d.len() <= 8 && be_val(
            d,
        ) > u8::MAX)
    }

    /// A raw byte inside a bytes field is itself.
    open spec fn raw_byte_decodes(b: u8, v: u8) -> bool {
        v == b
    }

    /// Every raw byte reads back.
    open spec fn raw_byte_fails(b: u8) -> bool {
        false
    }

    fn from_raw_byte(b: u8) -> (r: Option<u8>) {
        Some(b)
    }

    fn deserialize(de: &mut Deserializer) -> (r: Result<u8, DeserializeError>) {
        let ghost pre = old(de).remaining();
        let w = match <u64 as RionDeserialize>::deserialize(de) {
            Ok(w) => w,
            Err(e) => {
                return Err(e);
            },
        };
        if w > u8::MAX as u64 {
            proof {
                lemma_narrow_fails_witness(pre, de.remaining(), w);
            }
            return Err(DeserializeError::IntegerOutOfRange);
        }
        proof {
            let n = choose|n: int|
                #![all_triggers]
                1 <= n <= pre.len() && de.remaining() == pre.skip(n) && <u64 as RionDeserialize>::decodes_from(
                    pre.subrange(0, n),
                    w,
                );
            assert(<u64 as RionDeserialize>::decodes_from(pre.subrange(0, n), w));
            assert(1 <= n <= pre.len() && de.remaining() == pre.skip(n) && Self::decodes_from(
                pre.subrange(0, n),
                w as u8,
            ));
        }
        Ok(w as u8)
    }
}

impl RionDeserialize for u16 {
    /// One positive integer field whose value fits this width.
    open spec fn decodes_from(bytes: Seq<u8>, v: u16) -> bool {
        exists|w: u64| #[trigger] <u64 as RionDeserialize>::decodes_from(bytes, w) && w <= u16::MAX && v == w
    }

    /// Fails exactly where a whole positive integer cannot be read or its
    /// value exceeds this width.
    open spec fn fails_on(bytes: Seq<u8>) -> bool {
        <u64 as RionDeserialize>::fails_on(bytes) || (spec_parse_field(bytes) matches Some(
            (f, n),
        ) && f matches FieldView::Short(ShortRionType::Int64Positive, d) && d.len() <= 8 && be_val(
            d,
        ) > u16::MAX)
    }

    fn from_raw_byte(b: u8) -> (r: Option<Self>) {
        None
    }

    fn deserialize(de: &mut Deserializer) -> (r: Result<u16, DeserializeError>) {
        let ghost pre = old(de).remaining();
        let w = match <u64 as RionDeserialize>::deserialize(de) {
            Ok(w) => w,
            Err(e) => {
                return Err(e);
            },
        };
        if w > u16::MAX as u64 {
            proof {
                lemma_narrow_fails_witness(pre, de.remaining(), w);
            }
            return Err(DeserializeError::IntegerOutOfRange);
        }
        proof {
            let n = choose|n: int|
                #![all_triggers]
                1 <= n <= pre.len() && de.remaining() == pre.skip(n) && <u64 as RionDeserialize>::decodes_from(
                    pre.subrange(0, n),
                    w,
                );
            assert(<u64 as RionDeserialize>::decodes_from(pre.subrange(0, n), w));
            assert(1 <= n <= pre.len() && de.remaining() == pre.skip(n) && Self::decodes_from(
                pre.subrange(0, n),
                w as u16,
            ));
        }
        Ok(w as u16)
    }
}

impl RionDeserialize for u32 {
    /// One positive integer field whose value fits this width.
    open spec fn decodes_from(bytes: Seq<u8>, v: u32) -> bool {
        exists|w: u64| #[trigger] <u64 as RionDeserialize>::decodes_from(bytes, w) && w <= u32::MAX && v == w
    }

    /// Fails exactly where a whole positive integer cannot be read or its
    /// value exceeds this width.
    open spec fn fails_on(bytes: Seq<u8>) -> bool {
        <u64 as RionDeserialize>::fails_on(bytes) || (spec_parse_field(bytes) matches Some(
            (f, n),
        ) && f matches FieldView::Short(ShortRionType::Int64Positive, d) && d.len() <= 8 && be_val(
            d,
        ) > u32::MAX)
    }

    fn from_raw_byte(b: u8) -> (r: Option<Self>) {
        None
    }

    fn deserialize(de: &mut Deserializer) -> (r: Result<u32, DeserializeError>) {
        let ghost pre = old(de).remaining();
        let w = match <u64 as RionDeserialize>::deserialize(de) {
            Ok(w) => w,
            Err(e) => {
                return Err(e);
            },
        };
        if w > u32::MAX as u64 {
            proof {
                lemma_narrow_fails_witness(pre, de.remaining(), w);
            }
            return Err(DeserializeError::IntegerOutOfRange);
        }
        proof {
            let n = choose|n: int|
                #![all_triggers]
                1 <= n <= pre.len() && de.remaining() == pre.skip(n) && <u64 as RionDeserialize>::decodes_from(
                    pre.subrange(0, n),
                    w,
                );
            assert(<u64 as RionDeserialize>::decodes_from(pre.subrange(0, n), w));
            assert(1 <= n <= pre.len() && de.remaining() == pre.skip(n) && Self::decodes_from(
                pre.subrange(0, n),
                w as u32,
            ));
        }
        Ok(w as u32)
    }
}

impl RionDeserialize for i64 {
    /// One integer field under either tag, with the value in this type's
    /// range: a magnitude `m` under the negative tag reads back as `-m - 1`.
    open spec fn decodes_from(bytes: Seq<u8>, v: i64) -> bool {
        &&& spec_parse_field(bytes) matches Some((f, n))
        &&& n == bytes.len()
        &&& match f {
            FieldView::Short(ShortRionType::Int64Positive, d) => d.len() <= 8 && be_val(d)
                <= i64::MAX && v == be_val(d),
            FieldView::Short(ShortRionType::Int64Negative, d) => d.len() <= 8 && be_val(d)
                < 0x8000_0000_0000_0000 && v == -(be_val(d) as int) - 1,
            _ => false,
        }
    }

    /// Fails exactly where the head is not an integer field whose value
    /// this type can hold.
    open spec fn fails_on(bytes: Seq<u8>) -> bool {
        !(spec_parse_field(bytes) matches Some((f, n)) && match f {
            FieldView::Short(ShortRionType::Int64Positive, d) => d.len() <= 8 && be_val(d)
                <= i64::MAX,
            FieldView::Short(ShortRionType::Int64Negative, d) => d.len() <= 8 && be_val(d)
                < 0x8000_0000_0000_0000,
            _ => false,
        })
    }

    fn from_raw_byte(b: u8) -> (r: Option<Self>) {
        None
    }

    fn deserialize(de: &mut Deserializer) -> (r: Result<i64, DeserializeError>) {
        let ghost pre = old(de).remaining();
        let f = match de.parse_field() {
            Ok(f) => f,
            Err(e) => {
                return Err(e);
            },
        };
        match f {
            RionField::Short(sf) => match sf.field_type {
                ShortRionType::Int64Positive => match sf.as_pos_int() {
                    Some(v) => {
                        if v > i64::MAX as u64 {
                            return Err(DeserializeError::IntegerOutOfRange);
                        }
                        proof {
                            let n = spec_parse_field(pre)->Some_0.1;
                            lemma_parse_field_restrict(pre);
                            crate::num::lemma_be_val_fits_u64(sf@.data());
                            assert(1 <= n <= pre.len() && final(de).remaining() == pre.skip(n)
                                && Self::decodes_from(pre.subrange(0, n), v as i64));
                        }
                        Ok(v as i64)
                    },
                    None => Err(DeserializeError::IntegerOutOfRange),
                },
                ShortRionType::Int64Negative => match sf.as_neg_int() {
                    Some(v) => {
                        proof {
                            let n = spec_parse_field(pre)->Some_0.1;
                            lemma_parse_field_restrict(pre);
                            crate::num::lemma_be_val_fits_u64(sf@.data());
                            assert(1 <= n <= pre.len() && final(de).remaining() == pre.skip(n)
                                && Self::decodes_from(pre.subrange(0, n), v));
                        }
                        Ok(v)
                    },
                    None => Err(DeserializeError::IntegerOutOfRange),
                },
                _ => Err(
                    DeserializeError::WrongType(
                        RionFieldType::Short(ShortRionType::Int64Positive),
                        RionFieldType::Short(sf.field_type),
                    ),
                ),
            },
            other => Err(
                DeserializeError::WrongType(
                    RionFieldType::Short(ShortRionType::Int64Positive),
                    other.field_type(),
                ),
            ),
        }
    }
}

impl RionDeserialize for i8 {
    /// One integer field whose value fits this width.
    open spec fn fails_on(bytes: Seq<u8>) -> bool {
        <i64 as RionDeserialize>::fails_on(bytes) || (spec_parse_field(bytes) matches Some(
            (f, n),
        ) && f matches FieldView::Short(t, d) && be_val(d) > i8::MAX)
    }

    open spec fn decodes_from(bytes: Seq<u8>, v: i8) -> bool {
        exists|w: i64| #[trigger] <i64 as RionDeserialize>::decodes_from(bytes, w) && i8::MIN <= w <= i8::MAX
            && v == w
    }

    fn from_raw_byte(b: u8) -> (r: Option<Self>) {
        None
    }

    fn deserialize(de: &mut Deserializer) -> (r: Result<i8, DeserializeError>) {
        let ghost pre = old(de).remaining();
        let w = match <i64 as RionDeserialize>::deserialize(de) {
            Ok(w) => w,
            Err(e) => {
                return Err(e);
            },
        };
        if w < i8::MIN as i64 || w > i8::MAX as i64 {
            proof {
                lemma_narrow_fails_witness_signed(pre, de.remaining(), w);
            }
            return Err(DeserializeError::IntegerOutOfRange);
        }
        proof {
            let n = choose|n: int|
                #![all_triggers]
                1 <= n <= pre.len() && de.remaining() == pre.skip(n) && <i64 as RionDeserialize>::decodes_from(
                    pre.subrange(0, n),
                    w,
                );
            assert(<i64 as RionDeserialize>::decodes_from(pre.subrange(0, n), w));
            assert(1 <= n <= pre.len() && de.remaining() == pre.skip(n) && Self::decodes_from(
                pre.subrange(0, n),
                w as i8,
            ));
        }
        Ok(w as i8)
    }
}

impl RionDeserialize for i16 {
    /// One integer field whose value fits this width.
    open spec fn fails_on(bytes: Seq<u8>) -> bool {
        <i64 as RionDeserialize>::fails_on(bytes) || (spec_parse_field(bytes) matches Some(
            (f, n),
        ) && f matches FieldView::Short(t, d) && be_val(d) > i16::MAX)
    }

    open spec fn decodes_from(bytes: Seq<u8>, v: i16) -> bool {
        exists|w: i64| #[trigger] <i64 as RionDeserialize>::decodes_from(bytes, w) && i16::MIN <= w
            <= i16::MAX && v == w
    }

    fn from_raw_byte(b: u8) -> (r: Option<Self>) {
        None
    }

    fn deserialize(de: &mut Deserializer) -> (r: Result<i16, DeserializeError>) {
        let ghost pre = old(de).remaining();
        let w = match <i64 as RionDeserialize>::deserialize(de) {
            Ok(w) => w,
            Err(e) => {
                return Err(e);
            },
        };
        if w < i16::MIN as i64 || w > i16::MAX as i64 {
            proof {
                lemma_narrow_fails_witness_signed(pre, de.remaining(), w);
            }
            return Err(DeserializeError::IntegerOutOfRange);
        }
        proof {
            let n = choose|n: int|
                #![all_triggers]
                1 <= n <= pre.len() && de.remaining() == pre.skip(n) && <i64 as RionDeserialize>::decodes_from(
                    pre.subrange(0, n),
                    w,
                );
            assert(<i64 as RionDeserialize>::decodes_from(pre.subrange(0, n), w));
            assert(1 <= n <= pre.len() && de.remaining() == pre.skip(n) && Self::decodes_from(
                pre.subrange(0, n),
                w as i16,
            ));
        }
        Ok(w as i16)
    }
}

impl RionDeserialize for i32 {
    /// One integer field whose value fits this width.
    open spec fn fails_on(bytes: Seq<u8>) -> bool {
        <i64 as RionDeserialize>::fails_on(bytes) || (spec_parse_field(bytes) matches Some(
            (f, n),
        ) && f matches FieldView::Short(t, d) && be_val(d) > i32::MAX)
    }

    open spec fn decodes_from(bytes: Seq<u8>, v: i32) -> bool {
        exists|w: i64| #[trigger] <i64 as RionDeserialize>::decodes_from(bytes, w) && i32::MIN <= w
            <= i32::MAX && v == w
    }

    fn from_raw_byte(b: u8) -> (r: Option<Self>) {
        None
    }

    fn deserialize(de: &mut Deserializer) -> (r: Result<i32, DeserializeError>) {
        let ghost pre = old(de).remaining();
        let w = match <i64 as RionDeserialize>::deserialize(de) {
            Ok(w) => w,
            Err(e) => {
                return Err(e);
            },
        };
        if w < i32::MIN as i64 || w > i32::MAX as i64 {
            proof {
                lemma_narrow_fails_witness_signed(pre, de.remaining(), w);
            }
            return Err(DeserializeError::IntegerOutOfRange);
        }
        proof {
            let n = choose|n: int|
                #![all_triggers]
                1 <= n <= pre.len() && de.remaining() == pre.skip(n) && <i64 as RionDeserialize>::decodes_from(
                    pre.subrange(0, n),
                    w,
                );
            assert(<i64 as RionDeserialize>::decodes_from(pre.subrange(0, n), w));
            assert(1 <= n <= pre.len() && de.remaining() == pre.skip(n) && Self::decodes_from(
                pre.subrange(0, n),
                w as i32,
            ));
        }
        Ok(w as i32)
    }
}

impl RionDeserialize for bool {
    /// One tiny boolean field carrying a value; the null boolean is not a
    /// boolean value.
    open spec fn decodes_from(bytes: Seq<u8>, v: bool) -> bool {
        spec_parse_field(bytes) == Some((FieldView::Tiny(Some(v)), bytes.len() as int))
    }

    /// Fails exactly where the head is not a boolean carrying a value.
    open spec fn fails_on(bytes: Seq<u8>) -> bool {
        !(spec_parse_field(bytes) matches Some((f, n)) && f matches FieldView::Tiny(Some(b)))
    }

    fn from_raw_byte(b: u8) -> (r: Option<Self>) {
        None
    }

    fn deserialize(de: &mut Deserializer) -> (r: Result<bool, DeserializeError>) {
        let ghost pre = old(de).remaining();
        let f = match de.parse_field() {
            Ok(f) => f,
            Err(e) => {
                return Err(e);
            },
        };
        match f {
            RionField::Bool(Some(v)) => {
                proof {
                    let n = spec_parse_field(pre)->Some_0.1;
                    lemma_parse_field_restrict(pre);
                    assert(1 <= n <= pre.len() && final(de).remaining() == pre.skip(n)
                        && Self::decodes_from(pre.subrange(0, n), v));
                }
                Ok(v)
            },
            other => Err(
                DeserializeError::WrongType(RionFieldType::Bool(None), other.field_type()),
            ),
        }
    }
}

impl RionDeserialize for String {
    /// One string or key field holding valid UTF-8.
    open spec fn decodes_from(bytes: Seq<u8>, v: String) -> bool {
        &&& spec_parse_field(bytes) matches Some((f, n))
        &&& n == bytes.len()
        &&& spec_is_str_type(f.field_type()) || spec_is_key_type(f.field_type())
        &&& vstd::utf8::valid_utf8(f.data())
        &&& v@ == vstd::utf8::decode_utf8(f.data())
    }

    /// Fails exactly where the head is not a string or key field of valid
    /// UTF-8.
    open spec fn fails_on(bytes: Seq<u8>) -> bool {
        !(spec_parse_field(bytes) matches Some((f, n)) && (spec_is_str_type(f.field_type())
            || spec_is_key_type(f.field_type())) && vstd::utf8::valid_utf8(f.data()))
    }

    fn from_raw_byte(b: u8) -> (r: Option<Self>) {
        None
    }

    fn deserialize(de: &mut Deserializer) -> (r: Result<String, DeserializeError>) {
        let ghost pre = old(de).remaining();
        let f = match de.parse_field() {
            Ok(f) => f,
            Err(e) => {
                return Err(e);
            },
        };
        if !f.field_type().is_label() {
            return Err(
                DeserializeError::WrongType(
                    RionFieldType::Short(ShortRionType::UTF8),
                    f.field_type(),
                ),
            );
        }
        match f.as_str() {
            Some(s) => {
                proof {
                    let n = spec_parse_field(pre)->Some_0.1;
                    lemma_parse_field_restrict(pre);
                    assert(1 <= n <= pre.len() && final(de).remaining() == pre.skip(n)
                        && Self::decodes_from(pre.subrange(0, n), s));
                }
                Ok(s)
            },
            None => Err(DeserializeError::InvalidUtf8),
        }
    }
}

impl RionDeserialize for char {
    /// One non-empty string or key field; the value is its first character.
    open spec fn decodes_from(bytes: Seq<u8>, v: char) -> bool {
        &&& spec_parse_field(bytes) matches Some((f, n))
        &&& n == bytes.len()
        &&& spec_is_str_type(f.field_type()) || spec_is_key_type(f.field_type())
        &&& vstd::utf8::valid_utf8(f.data())
        &&& vstd::utf8::decode_utf8(f.data()).len() >= 1
        &&& v == vstd::utf8::decode_utf8(f.data())[0]
    }

    /// Fails exactly where no valid string can be read or it is empty.
    open spec fn fails_on(bytes: Seq<u8>) -> bool {
        <String as RionDeserialize>::fails_on(bytes) || (spec_parse_field(bytes) matches Some(
            (f, n),
        ) && vstd::utf8::valid_utf8(f.data()) && vstd::utf8::decode_utf8(f.data()).len() == 0)
    }

    fn from_raw_byte(b: u8) -> (r: Option<Self>) {
        None
    }

    fn deserialize(de: &mut Deserializer) -> (r: Result<char, DeserializeError>) {
        let ghost pre = old(de).remaining();
        let s = match <String as RionDeserialize>::deserialize(de) {
            Ok(s) => s,
            Err(e) => {
                return Err(e);
            },
        };
        match first_char(s.as_str()) {
            None => {
                proof {
                    let n = choose|n: int|
                        #![all_triggers]
                        1 <= n <= pre.len() && de.remaining() == pre.skip(n)
                            && <String as RionDeserialize>::decodes_from(pre.subrange(0, n), s);
                    let sub = pre.subrange(0, n);
                    assert(sub.subrange(0, n) =~= pre.subrange(0, n));
                    crate::field::lemma_parse_field_prefix(sub, pre);
                }
                Err(DeserializeError::EmptyInput)
            },
            Some(c) => {
                proof {
                    let n = choose|n: int|
                        #![all_triggers]
                        1 <= n <= pre.len() && final(de).remaining() == pre.skip(n)
                            && <String as RionDeserialize>::decodes_from(pre.subrange(0, n), s);
                    assert(1 <= n <= pre.len() && final(de).remaining() == pre.skip(n)
                        && Self::decodes_from(pre.subrange(0, n), c));
                }
                Ok(c)
            },
        }
    }
}

impl<T: RionDeserialize> RionDeserialize for Option<T> {
    /// A single null field reads as nothing; anything else reads as the
    /// inner value.
    open spec fn decodes_from(bytes: Seq<u8>, v: Option<T>) -> bool {
        match v {
            None => spec_parse_field(bytes) matches Some((f, n)) && (n == bytes.len()
                && field_is_null(f)),
            Some(inner) => T::decodes_from(bytes, inner),
        }
    }

    /// Fails exactly where no field heads the input, or a non-null head
    /// fails the inner type.
    open spec fn fails_on(bytes: Seq<u8>) -> bool {
        ||| bytes.len() == 0
        ||| spec_classify_lead(bytes[0]) is None
        ||| spec_classify_lead(bytes[0]) == Some(RionFieldType::Extended)
        ||| (!crate::types::spec_lead_is_null(
            LeadByte(spec_classify_lead(bytes[0])->Some_0, (bytes[0] % 16) as u8),
        ) && T::fails_on(bytes))
    }

    fn from_raw_byte(b: u8) -> (r: Option<Self>) {
        None
    }

    fn deserialize(de: &mut Deserializer) -> (r: Result<Option<T>, DeserializeError>) {
        let ghost pre = old(de).remaining();
        let lead = match de.peek_lead() {
            Some(l) => l,
            None => {
                match de.parse_field() {
                    Ok(_) => {
                        proof {
                            assert(false);
                        }
                        return Err(DeserializeError::EmptyInput);
                    },
                    Err(e) => {
                        return Err(e);
                    },
                }
            },
        };
        if lead.is_null() {
            match de.parse_field() {
                Ok(f) => {
                    proof {
                        let n = spec_parse_field(pre)->Some_0.1;
                        lemma_parse_field_restrict(pre);
                        assert(field_is_null(f@));
                        assert(1 <= n <= pre.len() && final(de).remaining() == pre.skip(n)
                            && Self::decodes_from(pre.subrange(0, n), None::<T>));
                    }
                    Ok(None)
                },
                Err(e) => {
                    proof {
                        if !(spec_classify_lead(pre[0])->Some_0 is Extended) {
                            lemma_null_head_parses(pre);
                            assert(false);
                        }
                    }
                    Err(e)
                },
            }
        } else {
            match T::deserialize(de) {
                Ok(v) => {
                    proof {
                        let n = choose|n: int|
                            #![all_triggers]
                            1 <= n <= pre.len() && final(de).remaining() == pre.skip(n)
                                && T::decodes_from(pre.subrange(0, n), v);
                        assert(1 <= n <= pre.len() && final(de).remaining() == pre.skip(n)
                            && Self::decodes_from(pre.subrange(0, n), Some(v)));
                    }
                    Ok(Some(v))
                },
                Err(e) => Err(e),
            }
        }
    }
}

/// Element-wise decoding of a window into a sequence of values.
pub open spec fn seq_decodes_from<T: RionDeserialize>(w: Seq<u8>, vs: Seq<T>) -> bool
    decreases vs.len(),
{
    if vs.len() == 0 {
        w.len() == 0
    } else {
        exists|k: int|
            #![all_triggers]
            1 <= k <= w.len() && T::decodes_from(w.subrange(0, k), vs[0]) && seq_decodes_from(
                w.skip(k),
                vs.drop_first(),
            )
    }
}

/// Extending the consumed window by one value's bytes extends the sequence.
proof fn lemma_seq_decodes_push<T: RionDeserialize>(p: Seq<u8>, vs: Seq<T>, t: Seq<u8>, x: T)
    requires
        seq_decodes_from(p, vs),
        T::decodes_from(t, x),
        t.len() >= 1,
    ensures
        seq_decodes_from(p + t, vs.push(x)),
    decreases vs.len(),
{
    if vs.len() == 0 {
        assert(p.len() == 0);
        let q = vs.push(x);
        assert(q[0] == x);
        assert((p + t).subrange(0, t.len() as int) =~= t);
        assert((p + t).skip(t.len() as int) =~= Seq::<u8>::empty());
        assert(q.drop_first() =~= Seq::<T>::empty());
        assert(1 <= t.len() <= (p + t).len() && T::decodes_from((p + t).subrange(0, t.len() as int), q[0])
            && seq_decodes_from((p + t).skip(t.len() as int), q.drop_first()));
    } else {
        let k = choose|k: int|
            #![all_triggers]
            1 <= k <= p.len() && T::decodes_from(p.subrange(0, k), vs[0]) && seq_decodes_from(
                p.skip(k),
                vs.drop_first(),
            );
        lemma_seq_decodes_push(p.skip(k), vs.drop_first(), t, x);
        let q = vs.push(x);
        assert(q[0] == vs[0]);
        assert((p + t).subrange(0, k) =~= p.subrange(0, k));
        assert((p + t).skip(k) =~= p.skip(k) + t);
        assert(q.drop_first() =~= vs.drop_first().push(x));
        assert(1 <= k <= (p + t).len() && T::decodes_from((p + t).subrange(0, k), q[0])
            && seq_decodes_from((p + t).skip(k), q.drop_first()));
    }
}

/// Whether decoding the elements of a window may fail: the head element
/// fails, or some element decodes and the rest of the window fails.
pub open spec fn seq_decode_fails<T: RionDeserialize>(w: Seq<u8>) -> bool
    decreases w.len(),
{
    if w.len() == 0 {
        false
    } else {
        T::fails_on(w) || (exists|k: int, v: T|
            #![all_triggers]
            1 <= k <= w.len() && T::decodes_from(w.subrange(0, k), v) && seq_decode_fails::<T>(
                w.skip(k),
            ))
    }
}

/// A failure after any decodable prefix is a failure of the whole window.
proof fn lemma_seq_fails_extend<T: RionDeserialize>(w: Seq<u8>, clen: int, vs: Seq<T>)
    requires
        0 <= clen <= w.len(),
        seq_decodes_from(w.subrange(0, clen), vs),
        T::fails_on(w.skip(clen)),
        clen < w.len(),
    ensures
        seq_decode_fails::<T>(w),
    decreases vs.len(),
{
    if vs.len() == 0 {
        assert(w.subrange(0, clen).len() == 0);
        assert(w.skip(0) =~= w);
    } else {
        let p = w.subrange(0, clen);
        let k = choose|k: int|
            #![all_triggers]
            1 <= k <= p.len() && T::decodes_from(p.subrange(0, k), vs[0]) && seq_decodes_from(
                p.skip(k),
                vs.drop_first(),
            );
        assert(p.subrange(0, k) =~= w.subrange(0, k));
        assert(p.skip(k) =~= w.skip(k).subrange(0, clen - k));
        assert(w.skip(clen) =~= w.skip(k).skip(clen - k));
        lemma_seq_fails_extend::<T>(w.skip(k), clen - k, vs.drop_first());
        assert(1 <= k <= w.len() && T::decodes_from(w.subrange(0, k), vs[0])
            && seq_decode_fails::<T>(w.skip(k)));
    }
}

impl<T: RionDeserialize> RionDeserialize for Vec<T> {
    /// An array field whose window holds the elements in order, or a bytes
    /// field read one raw byte per element for byte-like element types.
    open spec fn decodes_from(bytes: Seq<u8>, vs: Vec<T>) -> bool {
        &&& spec_parse_field(bytes) matches Some((f, n))
        &&& n == bytes.len()
        &&& match f {
            FieldView::Normal(NormalRionType::Array, w) => seq_decodes_from(w, vs@),
            FieldView::Normal(NormalRionType::Bytes, w) => w.len() == vs@.len() && (forall|i: int|
                0 <= i < w.len() ==> T::raw_byte_decodes(w[i], #[trigger] vs@[i])),
            _ => false,
        }
    }

    /// Fails exactly where the head is not an array whose elements all
    /// read, nor a bytes field every byte of which reads.
    open spec fn fails_on(bytes: Seq<u8>) -> bool {
        !(spec_parse_field(bytes) matches Some((f, n)) && match f {
            FieldView::Normal(NormalRionType::Array, w) => !seq_decode_fails::<T>(w),
            FieldView::Normal(NormalRionType::Bytes, w) => forall|i: int|
                0 <= i < w.len() ==> !T::raw_byte_fails(#[trigger] w[i]),
            _ => false,
        })
    }

    fn from_raw_byte(b: u8) -> (r: Option<Self>) {
        None
    }

    fn deserialize(de: &mut Deserializer) -> (r: Result<Vec<T>, DeserializeError>) {
        let ghost pre = old(de).remaining();
        let f = match de.parse_field() {
            Ok(f) => f,
            Err(e) => {
                return Err(e);
            },
        };
        let ghost n = spec_parse_field(pre)->Some_0.1;
        proof {
            lemma_parse_field_restrict(pre);
        }
        match f {
            RionField::Normal(nf) => match nf.field_type {
                NormalRionType::Array => {
                    let ghost fv = nf@;
                    let data = match (RionField::Normal(nf)).to_data() {
                        Some(d) => d,
                        None => {
                            proof {
                                assert(false);
                            }
                            return Err(DeserializeError::ExtraData);
                        },
                    };
                    let ghost w = data@;
                    let mut sub = Deserializer::from_vec(data);
                    let mut out: Vec<T> = Vec::new();
                    proof {
                        assert(w.subrange(0, 0) =~= Seq::<u8>::empty());
                    }
                    while !sub.is_empty()
                        invariant
                            de.wf(),
                            sub.wf(),
                            pre == old(de).remaining(),
                            spec_parse_field(pre) is Some,
                            spec_parse_field(pre)->Some_0.0 == FieldView::Normal(
                                NormalRionType::Array,
                                w,
                            ),
                            sub.remaining() == w.skip(w.len() - sub.remaining().len()),
                            sub.remaining().len() <= w.len(),
                            seq_decodes_from(
                                w.subrange(0, w.len() - sub.remaining().len()),
                                out@,
                            ),
                        decreases sub.remaining().len(),
                    {
                        let ghost clen = w.len() - sub.remaining().len();
                        let ghost subpre = sub.remaining();
                        let v = match T::deserialize(&mut sub) {
                            Ok(v) => v,
                            Err(e) => {
                                proof {
                                    lemma_seq_fails_extend::<T>(w, clen, out@);
                                    assert(seq_decode_fails::<T>(w));
                                    assert(Self::fails_on(pre));
                                }
                                return Err(e);
                            },
                        };
                        proof {
                            let k = choose|k: int|
                                #![all_triggers]
                                1 <= k <= subpre.len() && sub.remaining() == subpre.skip(k)
                                    && T::decodes_from(subpre.subrange(0, k), v);
                            let chunk = subpre.subrange(0, k);
                            assert(w.subrange(0, clen) + chunk =~= w.subrange(0, clen + k));
                            lemma_seq_decodes_push(w.subrange(0, clen), out@, chunk, v);
                            assert(sub.remaining() =~= w.skip(clen + k));
                        }
                        out.push(v);
                        proof {
                            assert(out@ =~= out@.subrange(0, out@.len() - 1).push(
                                out@[out@.len() - 1],
                            ));
                        }
                    }
                    proof {
                        assert(w.subrange(0, w.len() as int) =~= w);
                        assert(1 <= n <= pre.len() && final(de).remaining() == pre.skip(n)
                            && Self::decodes_from(pre.subrange(0, n), out));
                    }
                    Ok(out)
                },
                NormalRionType::Bytes => {
                    let ghost fv = nf@;
                    let data = match (RionField::Normal(nf)).to_data() {
                        Some(d) => d,
                        None => {
                            proof {
                                assert(false);
                            }
                            return Err(DeserializeError::ExtraData);
                        },
                    };
                    let ghost w = data@;
                    let mut out: Vec<T> = Vec::new();
                    let mut i: usize = 0;
                    while i < data.len()
                        invariant
                            de.wf(),
                            pre == old(de).remaining(),
                            spec_parse_field(pre) is Some,
                            spec_parse_field(pre)->Some_0.0 == FieldView::Normal(
                                NormalRionType::Bytes,
                                w,
                            ),
                            i == out@.len() <= w.len(),
                            w == data@,
                            forall|j: int|
                                0 <= j < i ==> T::raw_byte_decodes(w[j], #[trigger] out@[j]),
                        decreases w.len() - i,
                    {
                        match T::from_raw_byte(data[i]) {
                            Some(v) => {
                                out.push(v);
                            },
                            None => {
                                proof {
                                    let wp = spec_parse_field(pre)->Some_0.0->Normal_1;
                                    assert(wp == w);
                                    assert(T::raw_byte_fails(wp[i as int]));
                                    assert(!(forall|j: int|
                                        0 <= j < wp.len() ==> !T::raw_byte_fails(
                                            #[trigger] wp[j],
                                        )));
                                    assert(Self::fails_on(pre));
                                }
                                return Err(
                                    DeserializeError::WrongType(
                                        RionFieldType::Normal(NormalRionType::Array),
                                        RionFieldType::Normal(NormalRionType::Bytes),
                                    ),
                                );
                            },
                        }
                        i = i + 1;
                    }
                    proof {
                        assert(1 <= n <= pre.len() && final(de).remaining() == pre.skip(n)
                            && Self::decodes_from(pre.subrange(0, n), out));
                    }
                    Ok(out)
                },
                _ => Err(
                    DeserializeError::WrongType(
                        RionFieldType::Normal(NormalRionType::Array),
                        RionFieldType::Normal(nf.field_type),
                    ),
                ),
            },
            other => Err(
                DeserializeError::WrongType(
                    RionFieldType::Normal(NormalRionType::Array),
                    other.field_type(),
                ),
            ),
        }
    }
}

impl<T1: RionDeserialize, T2: RionDeserialize> RionDeserialize for (T1, T2) {
    /// An array field of exactly two elements.
    open spec fn decodes_from(bytes: Seq<u8>, v: (T1, T2)) -> bool {
        &&& spec_parse_field(bytes) matches Some((f, n))
        &&& n == bytes.len()
        &&& f matches FieldView::Normal(NormalRionType::Array, w)
        &&& exists|k: int|
            #![all_triggers]
            1 <= k <= w.len() && T1::decodes_from(w.subrange(0, k), v.0) && T2::decodes_from(
                w.skip(k),
                v.1,
            )
    }

    /// Fails exactly where the head is not an array of one first-type value
    /// followed by one second-type value filling the window.
    open spec fn fails_on(bytes: Seq<u8>) -> bool {
        !(spec_parse_field(bytes) matches Some((f, n)) && match f {
            FieldView::Normal(NormalRionType::Array, w) => !T1::fails_on(w) && !(exists|
                k: int,
                v1: T1,
            |
                #![all_triggers]
                1 <= k <= w.len() && T1::decodes_from(w.subrange(0, k), v1) && (T2::fails_on(
                    w.skip(k),
                ) || exists|k2: int, v2: T2|
                    #![all_triggers]
                    1 <= k2 <= w.skip(k).len() && T2::decodes_from(w.skip(k).subrange(0, k2), v2)
                        && k2 < w.skip(k).len())),
            _ => false,
        })
    }

    fn from_raw_byte(b: u8) -> (r: Option<Self>) {
        None
    }

    fn deserialize(de: &mut Deserializer) -> (r: Result<(T1, T2), DeserializeError>) {
        let ghost pre = old(de).remaining();
        let mut sub = match de.take_array_window() {
            Ok(s) => s,
            Err(e) => {
                return Err(e);
            },
        };
        let ghost w = sub.remaining();
        let ghost n = spec_parse_field(pre)->Some_0.1;
        proof {
            lemma_parse_field_restrict(pre);
        }
        let v1 = match T1::deserialize(&mut sub) {
            Ok(v) => v,
            Err(e) => {
                return Err(e);
            },
        };
        let ghost k = choose|k: int|
            #![all_triggers]
            1 <= k <= w.len() && sub.remaining() == w.skip(k) && T1::decodes_from(
                w.subrange(0, k),
                v1,
            );
        let v2 = match T2::deserialize(&mut sub) {
            Ok(v) => v,
            Err(e) => {
                return Err(e);
            },
        };
        if !sub.is_empty() {
            return Err(DeserializeError::ExtraData);
        }
        proof {
            let k2 = choose|k2: int|
                #![all_triggers]
                1 <= k2 <= w.skip(k).len() && sub.remaining() == w.skip(k).skip(k2)
                    && T2::decodes_from(w.skip(k).subrange(0, k2), v2);
            assert(w.skip(k).skip(k2).len() == 0);
            assert(w.skip(k).subrange(0, k2) =~= w.skip(k));
            assert(1 <= n <= pre.len());
            assert(de.remaining() == pre.skip(n));
            assert(T1::decodes_from(w.subrange(0, k), v1));
            assert(T2::decodes_from(w.skip(k), v2));
            assert(1 <= k <= w.len());
            assert(spec_parse_field(pre.subrange(0, n)) == spec_parse_field(pre));
            assert(spec_parse_field(pre)->Some_0.0 == FieldView::Normal(
                NormalRionType::Array,
                w,
            ));
            let v = (v1, v2);
            let wp = spec_parse_field(pre.subrange(0, n))->Some_0.0->Normal_1;
            assert(wp == w);
            assert(exists|j: int|
                #![all_triggers]
                1 <= j <= wp.len() && T1::decodes_from(wp.subrange(0, j), v.0) && T2::decodes_from(
                    wp.skip(j),
                    v.1,
                )) by {
                assert(v.0 == v1 && v.1 == v2);
                assert(wp.subrange(0, k) == w.subrange(0, k) && wp.skip(k) == w.skip(k));
                assert(1 <= k <= wp.len() && T1::decodes_from(wp.subrange(0, k), v.0)
                    && T2::decodes_from(wp.skip(k), v.1));
            }
            assert(Self::decodes_from(pre.subrange(0, n), v));
        }
        Ok((v1, v2))
    }
}

} // verus!
