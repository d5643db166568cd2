//! Container payload windows.
//!
//! A container's payload is a window of bytes holding a flat sequence of
//! child fields; the decoder must consume the window exactly.  This module
//! holds the mathematical parser and printer for such a sequence and the
//! executable functions proved against them, shared by arrays, objects and
//! tables.

use vstd::prelude::*;
use vstd::slice::slice_subrange;

use crate::errors::DeserializeError;
use crate::field::{
    field_bytes, field_wf, spec_parse_field, spec_parse_field_err, FieldView, RionField,
};

verus! {

/// The field sequence a whole window holds, or `None` if any field is
/// malformed or overruns the window.
pub open spec fn spec_parse_elems(s: Seq<u8>) -> Option<Seq<FieldView>>
    decreases s.len(),
{
    if s.len() == 0 {
        Some(Seq::<FieldView>::empty())
    } else {
        match spec_parse_field(s) {
            None => None,
            Some((f, n)) => if n < 1 || n > s.len() {
                None
            } else {
                match spec_parse_elems(s.subrange(n, s.len() as int)) {
                    None => None,
                    Some(rest) => Some(seq![f] + rest),
                }
            },
        }
    }
}

/// Which error parsing the window raises when it rejects.
pub open spec fn spec_parse_elems_err(s: Seq<u8>) -> DeserializeError
    decreases s.len(),
{
    if s.len() == 0 {
        DeserializeError::EmptyInput  // never raised
    } else {
        match spec_parse_field(s) {
            None => spec_parse_field_err(s),
            Some((f, n)) => if n < 1 || n > s.len() {
                DeserializeError::EmptyInput  // never raised
            } else {
                spec_parse_elems_err(s.subrange(n, s.len() as int))
            },
        }
    }
}

/// The concatenation of the canonical encodings of a field sequence.
pub open spec fn elems_bytes(es: Seq<FieldView>) -> Seq<u8>
    decreases es.len(),
{
    if es.len() == 0 {
        Seq::<u8>::empty()
    } else {
        field_bytes(es[0]) + elems_bytes(es.drop_first())
    }
}

/// Well-formedness of every field in a sequence.
pub open spec fn elems_wf(es: Seq<FieldView>) -> bool {
    forall|i: int| 0 <= i < es.len() ==> field_wf(#[trigger] es[i])
}

/// Appending one field appends its encoding.
pub proof fn lemma_elems_bytes_push(es: Seq<FieldView>, f: FieldView)
    ensures
        elems_bytes(es.push(f)) == elems_bytes(es) + field_bytes(f),
    decreases es.len(),
{
    let p = es.push(f);
    assert(p.len() == es.len() + 1);
    assert(p[0] == if es.len() == 0 {
        f
    } else {
        es[0]
    });
    assert(elems_bytes(p) == field_bytes(p[0]) + elems_bytes(p.drop_first()));
    if es.len() == 0 {
        assert(p.drop_first() =~= Seq::<FieldView>::empty());
        assert(elems_bytes(p.drop_first()) == Seq::<u8>::empty());
        assert(elems_bytes(es) == Seq::<u8>::empty());
        assert(elems_bytes(p) =~= elems_bytes(es) + field_bytes(f));
    } else {
        assert(p.drop_first() =~= es.drop_first().push(f));
        lemma_elems_bytes_push(es.drop_first(), f);
        assert(elems_bytes(es) == field_bytes(es[0]) + elems_bytes(es.drop_first()));
        assert(elems_bytes(p) =~= elems_bytes(es) + field_bytes(f));
    }
}

/// Window closure, encode direction: parsing the concatenation of canonical
/// field encodings consumes the whole window and yields exactly those fields.
pub proof fn lemma_parse_elems_of_encode(es: Seq<FieldView>)
    requires
        elems_wf(es),
    ensures
        spec_parse_elems(elems_bytes(es)) == Some(es),
    decreases es.len(),
{
    if es.len() == 0 {
        assert(spec_parse_elems(elems_bytes(es)) == Some(es));
    } else {
        let w = elems_bytes(es);
        let head = field_bytes(es[0]);
        let tail = elems_bytes(es.drop_first());
        crate::field::lemma_parse_field_of_encode(es[0], tail);
        assert(spec_parse_field(w) == Some((es[0], head.len() as int)));
        assert(w.subrange(head.len() as int, w.len() as int) =~= tail);
        assert(elems_wf(es.drop_first())) by {
            assert(forall|i: int|
                0 <= i < es.drop_first().len() ==> #[trigger] es.drop_first()[i] == es[i + 1]);
        }
        lemma_parse_elems_of_encode(es.drop_first());
        assert(seq![es[0]] + es.drop_first() =~= es);
    }
}

/// Every field of a parsed window is well formed.
pub proof fn lemma_parse_elems_wf(s: Seq<u8>)
    requires
        spec_parse_elems(s) is Some,
    ensures
        elems_wf(spec_parse_elems(s)->Some_0),
    decreases s.len(),
{
    if s.len() == 0 {
    } else {
        let (f, n) = spec_parse_field(s)->Some_0;
        crate::field::lemma_parse_field_bounds(s);
        lemma_parse_elems_wf(s.subrange(n, s.len() as int));
        let es = spec_parse_elems(s)->Some_0;
        let rest = spec_parse_elems(s.subrange(n, s.len() as int))->Some_0;
        assert(forall|i: int| 1 <= i < es.len() ==> #[trigger] es[i] == rest[i - 1]);
    }
}

/// Parses the fields of a whole payload window, which they must fill
/// exactly.  Succeeds if and only if the mathematical window parser accepts.
pub fn parse_field_seq(window: &[u8]) -> (r: Result<Vec<RionField>, DeserializeError>)
    ensures
        match r {
            Ok(fields) => {
                &&& spec_parse_elems(window@) is Some
                &&& fields@.map_values(|f: RionField| f@) == spec_parse_elems(window@)->Some_0
                &&& forall|i: int| 0 <= i < fields@.len() ==> (#[trigger] fields@[i]).wf()
            },
            Err(e) => spec_parse_elems(window@) is None && e == spec_parse_elems_err(window@),
        },
{
    let mut fields: Vec<RionField> = Vec::new();
    let mut rest: &[u8] = window;
    loop
        invariant
            spec_parse_elems(window@) == match spec_parse_elems(rest@) {
                Some(tail) => Some(fields@.map_values(|f: RionField| f@) + tail),
                None => None::<Seq<FieldView>>,
            },
            spec_parse_elems(window@) is None ==> spec_parse_elems_err(window@)
                == spec_parse_elems_err(rest@),
            forall|i: int| 0 <= i < fields@.len() ==> (#[trigger] fields@[i]).wf(),
        decreases rest@.len(),
    {
        if rest.len() == 0 {
            proof {
                assert(fields@.map_values(|f: RionField| f@) + Seq::<FieldView>::empty()
                    =~= fields@.map_values(|f: RionField| f@));
            }
            return Ok(fields);
        }
        let ghost pre = rest@;
        let ghost done = fields@.map_values(|f: RionField| f@);
        match RionField::parse(rest) {
            Ok((f, new_rest)) => {
                proof {
                    crate::field::lemma_parse_field_bounds(pre);
                }
                fields.push(f);
                rest = new_rest;
                proof {
                    let n = spec_parse_field(pre)->Some_0.1;
                    assert(rest@ == pre.subrange(n, pre.len() as int));
                    assert(fields@.map_values(|g: RionField| g@) =~= done.push(f@));
                    if spec_parse_elems(rest@) is Some {
                        assert(done + (seq![f@] + spec_parse_elems(rest@)->Some_0) =~= done.push(
                            f@,
                        ) + spec_parse_elems(rest@)->Some_0);
                    }
                }
            },
            Err(e) => {
                return Err(e);
            },
        }
    }
}

/// Appends the canonical encodings of all the given fields to `out`.
pub fn encode_field_seq(fields: &Vec<RionField>, out: &mut Vec<u8>)
    requires
        forall|i: int| 0 <= i < fields@.len() ==> (#[trigger] fields@[i]).wf(),
    ensures
        final(out)@ == old(out)@ + elems_bytes(fields@.map_values(|f: RionField| f@)),
{
    let ghost es = fields@.map_values(|f: RionField| f@);
    let mut i: usize = 0;
    while i < fields.len()
        invariant
            i <= fields@.len(),
            es == fields@.map_values(|f: RionField| f@),
            forall|j: int| 0 <= j < fields@.len() ==> (#[trigger] fields@[j]).wf(),
            out@ == old(out)@ + elems_bytes(es.take(i as int)),
        decreases fields@.len() - i,
    {
        let f = &fields[i];
        f.encode(out);
        proof {
            assert(es.take(i + 1) =~= es.take(i as int).push(es[i as int]));
            lemma_elems_bytes_push(es.take(i as int), es[i as int]);
        }
        i = i + 1;
    }
    proof {
        assert(es.take(es.len() as int) =~= es);
    }
}

} // verus!
