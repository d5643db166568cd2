//! The object container: a mapping from keys to fields, length-framed as a
//! normal field with type nibble 0xC.
//!
//! The wire form is a flat sequence of key-field / value-field pairs inside
//! the payload window.  Keys are unique; the decoder rejects a repeated key.
//! This implementation keeps pairs in insertion order, which the wire format
//! permits: it imposes no ordering between keys.

use vstd::prelude::*;
use vstd::slice::slice_to_vec;
use vstd::string::StringSliceAdditionalSpecFns;

use crate::errors::DeserializeError;
use crate::field::{
    field_bytes, field_wf, key_field_view, spec_parse_field, spec_parse_field_err, FieldView,
    NormalField, RionField,
};
use crate::types::{NormalRionType, RionFieldType};

verus! {

/// One key-value pair of an object's wire form.
pub open spec fn pair_bytes(p: (Seq<u8>, FieldView)) -> Seq<u8> {
    field_bytes(key_field_view(p.0)) + field_bytes(p.1)
}

/// The concatenated wire form of an object's pairs, in order.
pub open spec fn pairs_bytes(ps: Seq<(Seq<u8>, FieldView)>) -> Seq<u8>
    decreases ps.len(),
{
    if ps.len() == 0 {
        Seq::<u8>::empty()
    } else {
        pair_bytes(ps[0]) + pairs_bytes(ps.drop_first())
    }
}

/// No two pairs share a key.
pub open spec fn keys_distinct(ps: Seq<(Seq<u8>, FieldView)>) -> bool {
    forall|i: int, j: int| 0 <= i < j < ps.len() ==> (#[trigger] ps[i]).0 != (#[trigger] ps[j]).0
}

/// Well-formedness of an object's pairs: distinct keys, keys that fit the
/// address space, well-formed values.
pub open spec fn pairs_wf(ps: Seq<(Seq<u8>, FieldView)>) -> bool {
    &&& keys_distinct(ps)
    &&& forall|i: int|
        0 <= i < ps.len() ==> (#[trigger] ps[i]).0.len() <= usize::MAX && field_wf(ps[i].1)
}

/// The pair sequence a payload window holds: alternating key fields and
/// value fields until the window is exhausted exactly.
pub open spec fn spec_parse_pairs(s: Seq<u8>) -> Option<Seq<(Seq<u8>, FieldView)>>
    decreases s.len(),
{
    if s.len() == 0 {
        Some(Seq::<(Seq<u8>, FieldView)>::empty())
    } else {
        match spec_parse_field(s) {
            None => None,
            Some((k, n1)) => if n1 < 1 || n1 > s.len() {
                None
            } else if !k.is_key() {
                None
            } else {
                let s2 = s.subrange(n1, s.len() as int);
                match spec_parse_field(s2) {
                    None => None,
                    Some((v, n2)) => if n2 < 1 || n2 > s2.len() {
                        None
                    } else {
                        match spec_parse_pairs(s2.subrange(n2, s2.len() as int)) {
                            None => None,
                            Some(ps) => Some(seq![(k.data(), v)] + ps),
                        }
                    },
                }
            },
        }
    }
}

/// Which error parsing an object window raises when it rejects.
pub open spec fn spec_parse_pairs_err(s: Seq<u8>) -> DeserializeError
    decreases s.len(),
{
    if s.len() == 0 {
        DeserializeError::EmptyInput  // never raised
    } else {
        match spec_parse_field(s) {
            None => spec_parse_field_err(s),
            Some((k, n1)) => if n1 < 1 || n1 > s.len() {
                DeserializeError::EmptyInput  // never raised
            } else if !k.is_key() {
                DeserializeError::ExpectedKey
            } else {
                let s2 = s.subrange(n1, s.len() as int);
                match spec_parse_field(s2) {
                    None => spec_parse_field_err(s2),
                    Some((v, n2)) => if n2 < 1 || n2 > s2.len() {
                        DeserializeError::EmptyInput  // never raised
                    } else {
                        spec_parse_pairs_err(s2.subrange(n2, s2.len() as int))
                    },
                }
            },
        }
    }
}

/// The object parser at the head of `s`: the key-value pairs and the bytes
/// consumed.  Accepts exactly an object field whose window parses as pairs
/// with pairwise distinct keys.
pub open spec fn spec_parse_object(s: Seq<u8>) -> Option<(Seq<(Seq<u8>, FieldView)>, int)> {
    match spec_parse_field(s) {
        None => None,
        Some((f, n)) => match f {
            FieldView::Normal(NormalRionType::Object, w) => match spec_parse_pairs(w) {
                None => None,
                Some(ps) => if keys_distinct(ps) {
                    Some((ps, n))
                } else {
                    None
                },
            },
            _ => None,
        },
    }
}

/// The index of the first pair holding `k`, or -1 when none does.
pub open spec fn key_index(ps: Seq<(Seq<u8>, FieldView)>, k: Seq<u8>) -> int
    decreases ps.len(),
{
    if ps.len() == 0 {
        -1
    } else if ps[0].0 == k {
        0
    } else {
        let r = key_index(ps.drop_first(), k);
        if r == -1 {
            -1
        } else {
            r + 1
        }
    }
}

/// What `key_index` means: -1 exactly when the key is absent, otherwise the
/// first index holding it.
pub proof fn lemma_key_index(ps: Seq<(Seq<u8>, FieldView)>, k: Seq<u8>)
    ensures
        key_index(ps, k) == -1 <==> (forall|i: int| 0 <= i < ps.len() ==> (#[trigger] ps[i]).0
            != k),
        key_index(ps, k) != -1 ==> 0 <= key_index(ps, k) < ps.len() && ps[key_index(ps, k)].0 == k
            && (forall|j: int| 0 <= j < key_index(ps, k) ==> (#[trigger] ps[j]).0 != k),
    decreases ps.len(),
{
    if ps.len() == 0 {
    } else if ps[0].0 == k {
    } else {
        lemma_key_index(ps.drop_first(), k);
        assert(forall|i: int|
            1 <= i < ps.len() ==> (#[trigger] ps[i]).0 == ps.drop_first()[i - 1].0);
    }
}

/// True when the two byte slices hold the same bytes.
pub fn bytes_eq(a: &[u8], b: &[u8]) -> (r: bool)
    ensures
        r <==> a@ == b@,
{
    if a.len() != b.len() {
        proof {
            assert(a@.len() != b@.len());
        }
        return false;
    }
    let mut i: usize = 0;
    while i < a.len()
        invariant
            i <= a@.len(),
            a@.len() == b@.len(),
            forall|j: int| 0 <= j < i ==> a@[j] == b@[j],
        decreases a@.len() - i,
    {
        if a[i] != b[i] {
            return false;
        }
        i = i + 1;
    }
    proof {
        assert(a@ =~= b@);
    }
    true
}

/// A mapping from byte keys to RION values, in insertion order.
#[derive(Debug, PartialEq)]
pub struct RionObject {
    pub fields: Vec<(Vec<u8>, RionField)>,
}

impl View for RionObject {
    type V = Seq<(Seq<u8>, FieldView)>;

    open spec fn view(&self) -> Seq<(Seq<u8>, FieldView)> {
        self.fields@.map_values(|p: (Vec<u8>, RionField)| (p.0@, p.1@))
    }
}

impl RionObject {
    /// Distinct keys and well-formed values.
    pub open spec fn wf(&self) -> bool {
        pairs_wf(self@)
    }

    /// The canonical wire bytes of this object.
    pub open spec fn spec_bytes(&self) -> Seq<u8> {
        field_bytes(FieldView::Normal(NormalRionType::Object, pairs_bytes(self@)))
    }

    /// An empty object.
    pub fn new() -> (r: RionObject)
        ensures
            r@ == Seq::<(Seq<u8>, FieldView)>::empty(),
            r.wf(),
    {
        RionObject { fields: Vec::new() }
    }

    /// The position of the key's pair, or `None` when the key is absent.
    pub fn find_key(&self, key: &[u8]) -> (r: Option<usize>)
        ensures
            r is None <==> key_index(self@, key@) == -1,
            r is Some ==> r->Some_0 == key_index(self@, key@),
    {
        proof {
            lemma_key_index(self@, key@);
        }
        let mut i: usize = 0;
        while i < self.fields.len()
            invariant
                i <= self.fields@.len(),
                self@ == self.fields@.map_values(|p: (Vec<u8>, RionField)| (p.0@, p.1@)),
                forall|j: int| 0 <= j < i ==> (#[trigger] self@[j]).0 != key@,
            decreases self.fields@.len() - i,
        {
            if bytes_eq(self.fields[i].0.as_slice(), key) {
                proof {
                    lemma_key_index(self@, key@);
                    assert(self@[i as int].0 == key@);
                    if key_index(self@, key@) == -1 {
                        assert(self@[i as int].0 != key@);
                    }
                }
                return Some(i);
            }
            proof {
                assert(self@[i as int].0 == self.fields@[i as int].0@);
            }
            i = i + 1;
        }
        None
    }

    /// True when the object holds the key.
    pub fn contains_key(&self, key: &[u8]) -> (r: bool)
        ensures
            r <==> key_index(self@, key@) != -1,
    {
        self.find_key(key).is_some()
    }

    /// Adds a field under a raw byte key.  A fresh key's pair is appended; a
    /// key already present has its old pair removed and the new one
    /// appended.
    pub fn add_field_bytes(&mut self, key: &[u8], field: RionField)
        requires
            field.wf(),
        ensures
            key_index(old(self)@, key@) == -1 ==> final(self)@ == old(self)@.push(
                (key@, field@),
            ),
            key_index(old(self)@, key@) != -1 ==> final(self)@ == old(self)@.remove(
                key_index(old(self)@, key@),
            ).push((key@, field@)),
            old(self).wf() ==> final(self).wf(),
    {
        proof {
            lemma_key_index(old(self)@, key@);
        }
        let ghost orig = self@;
        match self.find_key(key) {
            Some(found_at) => {
                proof {
                    lemma_key_index(orig, key@);
                }
                self.fields.remove(found_at);
                self.fields.push((slice_to_vec(key), field));
                proof {
                    assert(final(self)@ =~= orig.remove(found_at as int).push((key@, field@)));
                    if pairs_wf(orig) {
                        vstd::slice::axiom_spec_len(key);
                        lemma_pairs_wf_replace(orig, found_at as int, key@, field@);
                    }
                }
            },
            None => {
                self.fields.push((slice_to_vec(key), field));
                proof {
                    vstd::slice::axiom_spec_len(key);
                    assert(final(self)@ =~= orig.push((key@, field@)));
                    if pairs_wf(orig) {
                        lemma_key_index(orig, key@);
                        assert(keys_distinct(orig.push((key@, field@)))) by {
                            assert(forall|i: int|
                                0 <= i < orig.len() ==> (#[trigger] orig.push((key@, field@))[i]).0
                                    == orig[i].0);
                        }
                    }
                }
            },
        }
    }

    /// Adds a field under a string key.
    pub fn add_field(&mut self, key: &str, field: RionField)
        requires
            field.wf(),
        ensures
            key_index(old(self)@, key.spec_bytes()) == -1 ==> final(self)@ == old(self)@.push(
                (key.spec_bytes(), field@),
            ),
            key_index(old(self)@, key.spec_bytes()) != -1 ==> final(self)@ == old(
                self,
            )@.remove(key_index(old(self)@, key.spec_bytes())).push((key.spec_bytes(), field@)),
            old(self).wf() ==> final(self).wf(),
    {
        self.add_field_bytes(key.as_bytes(), field);
    }

    /// Parses the pairs of a whole payload window, which they must fill
    /// exactly; a repeated key is `DuplicateKey`.
    fn parse_rest(data: &[u8]) -> (r: Result<RionObject, DeserializeError>)
        ensures
            match r {
                Ok(o) => {
                    &&& spec_parse_pairs(data@) == Some(o@)
                    &&& o.wf()
                },
                Err(e) => match spec_parse_pairs(data@) {
                    Some(ps) => !keys_distinct(ps) && e is DuplicateKey,
                    None => e == spec_parse_pairs_err(data@) || e is DuplicateKey,
                },
            },
    {
        let mut object = RionObject::new();
        let mut rest: &[u8] = data;
        loop
            invariant
                spec_parse_pairs(data@) == match spec_parse_pairs(rest@) {
                    Some(tail) => Some(object@ + tail),
                    None => None::<Seq<(Seq<u8>, FieldView)>>,
                },
                spec_parse_pairs(data@) is None ==> spec_parse_pairs_err(data@)
                    == spec_parse_pairs_err(rest@),
                object.wf(),
            decreases rest@.len(),
        {
            if rest.len() == 0 {
                proof {
                    assert(object@ + Seq::<(Seq<u8>, FieldView)>::empty() =~= object@);
                }
                return Ok(object);
            }
            let ghost pre = rest@;
            let ghost done = object@;
            let (key, mid) = match RionField::parse(rest) {
                Ok(p) => p,
                Err(e) => {
                    return Err(e);
                },
            };
            proof {
                crate::field::lemma_parse_field_bounds(pre);
            }
            if !key.is_key() {
                return Err(DeserializeError::ExpectedKey);
            }
            let (value, after) = match RionField::parse(mid) {
                Ok(p) => p,
                Err(e) => {
                    return Err(e);
                },
            };
            proof {
                crate::field::lemma_parse_field_bounds(mid@);
            }
            let key_data = match key.to_data() {
                Some(d) => d,
                None => {
                    proof {
                        assert(false);
                    }
                    return Err(DeserializeError::ExpectedKey);
                },
            };
            let ghost kb = key_data@;
            let ghost tail_pairs = spec_parse_pairs(after@);
            if object.contains_key(key_data.as_slice()) {
                proof {
                    lemma_key_index(done, kb);
                    let i = key_index(done, kb);
                    if spec_parse_pairs(pre) is Some {
                        let full = spec_parse_pairs(data@)->Some_0;
                        let ps = spec_parse_pairs(pre)->Some_0;
                        assert(ps[0].0 == kb);
                        assert(full == done + ps);
                        assert(full[i].0 == kb);
                        assert(full[done.len() as int].0 == kb);
                        assert(!keys_distinct(full));
                    }
                }
                return Err(DeserializeError::DuplicateKey(key_data));
            }
            proof {
                lemma_key_index(done, kb);
            }
            object.add_field_bytes(key_data.as_slice(), value);
            rest = after;
            proof {
                assert(object@ =~= done.push((kb, value@)));
                if spec_parse_pairs(rest@) is Some {
                    let tail = spec_parse_pairs(rest@)->Some_0;
                    assert(done + (seq![(kb, value@)] + tail) =~= done.push((kb, value@)) + tail);
                }
            }
        }
    }

    /// Parses an object field from the head of `data` and returns the
    /// unconsumed tail.
    pub fn parse(data: &[u8]) -> (r: Result<(RionObject, &[u8]), DeserializeError>)
        ensures
            match r {
                Ok((o, rest)) => {
                    &&& spec_parse_object(data@) is Some
                    &&& o@ == spec_parse_object(data@)->Some_0.0
                    &&& o.wf()
                    &&& rest@ == data@.subrange(
                        spec_parse_object(data@)->Some_0.1,
                        data@.len() as int,
                    )
                },
                Err(e) => {
                    &&& spec_parse_object(data@) is None
                    &&& match spec_parse_field(data@) {
                    None => e == spec_parse_field_err(data@),
                    Some((f, n)) => match f {
                        FieldView::Normal(NormalRionType::Object, w) => match spec_parse_pairs(
                            w,
                        ) {
                            Some(ps) => !keys_distinct(ps) && e is DuplicateKey,
                            None => e == spec_parse_pairs_err(w) || e is DuplicateKey,
                        },
                        _ => e == DeserializeError::WrongType(
                            RionFieldType::Normal(NormalRionType::Object),
                            f.field_type(),
                        ),
                    },
                }
                },
            },
    {
        let (field, rest) = match RionField::parse(data) {
            Ok(p) => p,
            Err(e) => {
                return Err(e);
            },
        };
        match field {
            RionField::Normal(nf) => {
                if !matches!(nf.field_type, NormalRionType::Object) {
                    return Err(
                        DeserializeError::WrongType(
                            RionFieldType::Normal(NormalRionType::Object),
                            RionFieldType::Normal(nf.field_type),
                        ),
                    );
                }
                match RionObject::parse_rest(nf.as_bytes()) {
                    Ok(o) => Ok((o, rest)),
                    Err(e) => Err(e),
                }
            },
            other => Err(
                DeserializeError::WrongType(
                    RionFieldType::Normal(NormalRionType::Object),
                    other.field_type(),
                ),
            ),
        }
    }

    /// Parses an object field that must take the whole buffer; trailing
    /// bytes are `ExtraData`.  Every decoded object has distinct keys.
    pub fn from_slice(data: &[u8]) -> (r: Result<RionObject, DeserializeError>)
        ensures
            match r {
                Ok(o) => {
                    &&& spec_parse_object(data@) == Some((o@, data@.len() as int))
                    &&& o.wf()
                    &&& keys_distinct(o@)
                },
                Err(e) => match spec_parse_object(data@) {
                    Some((ps, n)) => n < data@.len() && e == DeserializeError::ExtraData,
                    None => match spec_parse_field(data@) {
                    None => e == spec_parse_field_err(data@),
                    Some((f, n)) => match f {
                        FieldView::Normal(NormalRionType::Object, w) => match spec_parse_pairs(
                            w,
                        ) {
                            Some(ps) => !keys_distinct(ps) && e is DuplicateKey,
                            None => e == spec_parse_pairs_err(w) || e is DuplicateKey,
                        },
                        _ => e == DeserializeError::WrongType(
                            RionFieldType::Normal(NormalRionType::Object),
                            f.field_type(),
                        ),
                    },
                },
                },
            },
    {
        match RionObject::parse(data) {
            Ok((o, rest)) => {
                if rest.len() > 0 {
                    Err(DeserializeError::ExtraData)
                } else {
                    proof {
                        assert(data@.subrange(
                            spec_parse_field(data@)->Some_0.1,
                            data@.len() as int,
                        ).len() == 0);
                    }
                    Ok(o)
                }
            },
            Err(e) => Err(e),
        }
    }

    /// Appends this object's canonical wire bytes to `writer`.
    pub fn write(&self, writer: &mut Vec<u8>)
        requires
            self.wf(),
        ensures
            final(writer)@ == old(writer)@ + self.spec_bytes(),
    {
        let mut content: Vec<u8> = Vec::new();
        let ghost ps = self@;
        let mut i: usize = 0;
        while i < self.fields.len()
            invariant
                i <= self.fields@.len(),
                ps == self.fields@.map_values(|p: (Vec<u8>, RionField)| (p.0@, p.1@)),
                pairs_wf(ps),
                content@ == pairs_bytes(ps.take(i as int)),
            decreases self.fields@.len() - i,
        {
            proof {
                assert(ps[i as int] == (self.fields@[i as int].0@, self.fields@[i as int].1@));
            }
            let key_field = RionField::key(self.fields[i].0.as_slice());
            key_field.encode(&mut content);
            let value = &self.fields[i].1;
            proof {
                assert(field_wf(ps[i as int].1));
            }
            value.encode(&mut content);
            proof {
                assert(ps.take(i + 1) =~= ps.take(i as int).push(ps[i as int]));
                lemma_pairs_bytes_push(ps.take(i as int), ps[i as int]);
            }
            i = i + 1;
        }
        proof {
            assert(ps.take(ps.len() as int) =~= ps);
        }
        let framed = NormalField::new(NormalRionType::Object, content);
        framed.extend(writer);
    }

    /// This object's canonical wire bytes.
    pub fn encode(&self) -> (r: Vec<u8>)
        requires
            self.wf(),
        ensures
            r@ == self.spec_bytes(),
    {
        let mut out: Vec<u8> = Vec::new();
        self.write(&mut out);
        proof {
            assert(out@ =~= self.spec_bytes());
        }
        out
    }
}

/// Appending one pair appends its wire form.
pub proof fn lemma_pairs_bytes_push(ps: Seq<(Seq<u8>, FieldView)>, p: (Seq<u8>, FieldView))
    ensures
        pairs_bytes(ps.push(p)) == pairs_bytes(ps) + pair_bytes(p),
    decreases ps.len(),
{
    let q = ps.push(p);
    assert(q.len() == ps.len() + 1);
    assert(q[0] == if ps.len() == 0 {
        p
    } else {
        ps[0]
    });
    assert(pairs_bytes(q) == pair_bytes(q[0]) + pairs_bytes(q.drop_first()));
    if ps.len() == 0 {
        assert(q.drop_first() =~= Seq::<(Seq<u8>, FieldView)>::empty());
        assert(pairs_bytes(q.drop_first()) == Seq::<u8>::empty());
        assert(pairs_bytes(ps) == Seq::<u8>::empty());
        assert(pairs_bytes(q) =~= pairs_bytes(ps) + pair_bytes(p));
    } else {
        assert(q.drop_first() =~= ps.drop_first().push(p));
        lemma_pairs_bytes_push(ps.drop_first(), p);
        assert(pairs_bytes(ps) == pair_bytes(ps[0]) + pairs_bytes(ps.drop_first()));
        assert(pairs_bytes(q) =~= pairs_bytes(ps) + pair_bytes(p));
    }
}

/// Replacing a key's pair by removing it and appending a pair under the same
/// key keeps keys distinct and values well formed.
proof fn lemma_pairs_wf_replace(ps: Seq<(Seq<u8>, FieldView)>, i: int, k: Seq<u8>, v: FieldView)
    requires
        pairs_wf(ps),
        0 <= i < ps.len(),
        ps[i].0 == k,
        field_wf(v),
        k.len() <= usize::MAX,
    ensures
        pairs_wf(ps.remove(i).push((k, v))),
{
    let q = ps.remove(i);
    assert(forall|j: int| 0 <= j < i ==> #[trigger] q[j] == ps[j]);
    assert(forall|j: int| i <= j < q.len() ==> #[trigger] q[j] == ps[j + 1]);
    assert(keys_distinct(q));
    assert(forall|j: int| 0 <= j < q.len() ==> (#[trigger] q[j]).0 != k);
    let r = q.push((k, v));
    assert(forall|j: int| 0 <= j < q.len() ==> #[trigger] r[j] == q[j]);
    assert(keys_distinct(r));
}

/// Round trip for objects: decoding a canonical pair encoding restores
/// exactly the pairs that were encoded.
#[verifier::rlimit(100)]
#[verifier::spinoff_prover]
pub proof fn lemma_pairs_round_trip(ps: Seq<(Seq<u8>, FieldView)>)
    requires
        pairs_wf(ps),
    ensures
        spec_parse_pairs(pairs_bytes(ps)) == Some(ps),
    decreases ps.len(),
{
    if ps.len() == 0 {
    } else {
        let w = pairs_bytes(ps);
        let (k, v) = ps[0];
        let kf = key_field_view(k);
        let kb = field_bytes(kf);
        let vb = field_bytes(v);
        let tail = pairs_bytes(ps.drop_first());
        assert(w =~= kb + (vb + tail));
        crate::field::lemma_parse_field_of_encode(kf, vb + tail);
        crate::field::lemma_parse_field_bounds(w);
        assert(kf.is_key());
        assert(kf.data() == k);
        let s2 = w.subrange(kb.len() as int, w.len() as int);
        assert(s2 =~= vb + tail);
        crate::field::lemma_parse_field_of_encode(v, tail);
        crate::field::lemma_parse_field_bounds(s2);
        let s3 = s2.subrange(vb.len() as int, s2.len() as int);
        assert(s3 =~= tail);
        assert(forall|j: int|
            0 <= j < ps.drop_first().len() ==> #[trigger] ps.drop_first()[j] == ps[j + 1]);
        lemma_pairs_round_trip(ps.drop_first());
        assert(seq![(k, v)] + ps.drop_first() =~= ps);
    }
}

} // verus!
