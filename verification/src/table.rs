//! The table container: a row-set framed as a normal field with type
//! nibble 0xB.
//!
//! The payload window holds a positive integer giving the row count m, then
//! the column-name keys (keys up to the first non-key field), then exactly
//! m times n value fields in row-major order.

use vstd::arithmetic::div_mod::{lemma_fundamental_div_mod, lemma_fundamental_div_mod_converse};
use vstd::prelude::*;

use crate::errors::DeserializeError;
use crate::field::{spec_parse_field, spec_parse_field_err, FieldView, RionField};
use crate::num::be_val;
use crate::types::{NormalRionType, RionFieldType, ShortRionType};
use crate::window::{parse_field_seq, spec_parse_elems, spec_parse_elems_err};

verus! {

/// How many fields at the head of the sequence are keys.
pub open spec fn count_leading_keys(es: Seq<FieldView>) -> nat
    decreases es.len(),
{
    if es.len() == 0 {
        0
    } else if es[0].is_key() {
        1 + count_leading_keys(es.drop_first())
    } else {
        0
    }
}

/// `count_leading_keys` is pinned by any witness position: the keys run up
/// to `c` exactly when everything before `c` is a key and `c` is not.
pub proof fn lemma_count_leading_keys(es: Seq<FieldView>, c: nat)
    requires
        c <= es.len(),
        forall|j: int| 0 <= j < c ==> (#[trigger] es[j]).is_key(),
        c < es.len() ==> !es[c as int].is_key(),
    ensures
        count_leading_keys(es) == c,
    decreases es.len(),
{
    if es.len() == 0 {
    } else if c == 0 {
    } else {
        assert(es[0].is_key());
        assert(forall|j: int|
            0 <= j < es.drop_first().len() ==> #[trigger] es.drop_first()[j] == es[j + 1]);
        lemma_count_leading_keys(es.drop_first(), (c - 1) as nat);
    }
}

/// What a table's field sequence means: the row count from the leading
/// integer, the column names, and the row-major values, whose number must be
/// exactly rows times columns.
pub open spec fn spec_table_of_elems(es: Seq<FieldView>) -> Option<(Seq<Seq<u8>>, Seq<FieldView>)> {
    if es.len() == 0 {
        None
    } else {
        match es[0] {
            FieldView::Short(ShortRionType::Int64Positive, d) => if d.len() <= 8 {
                let m = be_val(d);
                let rest = es.drop_first();
                let n = count_leading_keys(rest);
                let cols = Seq::new(n, |i: int| rest[i].data());
                let vals = rest.skip(n as int);
                if m * n == vals.len() {
                    Some((cols, vals))
                } else {
                    None
                }
            } else {
                None
            },
            _ => None,
        }
    }
}

/// The table parser at the head of `s`: column names and row-major values,
/// with the bytes consumed.
pub open spec fn spec_parse_table(s: Seq<u8>) -> Option<(Seq<Seq<u8>>, Seq<FieldView>, int)> {
    match spec_parse_field(s) {
        None => None,
        Some((f, n)) => match f {
            FieldView::Normal(NormalRionType::Table, w) => match spec_parse_elems(w) {
                None => None,
                Some(es) => match spec_table_of_elems(es) {
                    None => None,
                    Some((cols, vals)) => Some((cols, vals, n)),
                },
            },
            _ => None,
        },
    }
}

/// A decoded table: its column names and its values in row-major order.
#[derive(Debug, Clone)]
pub struct RionTable {
    pub column_names: Vec<Vec<u8>>,
    pub rows: Vec<RionField>,
}

impl View for RionTable {
    type V = (Seq<Seq<u8>>, Seq<FieldView>);

    open spec fn view(&self) -> (Seq<Seq<u8>>, Seq<FieldView>) {
        (
            self.column_names@.map_values(|c: Vec<u8>| c@),
            self.rows@.map_values(|f: RionField| f@),
        )
    }
}

impl RionTable {
    /// Parses a table field from the head of `data` and returns the
    /// unconsumed tail.  Succeeds if and only if the mathematical table
    /// parser accepts.
    pub fn parse(data: &[u8]) -> (r: Result<(RionTable, &[u8]), DeserializeError>)
        ensures
            match r {
                Ok((t, rest)) => {
                    &&& spec_parse_table(data@) is Some
                    &&& t@.0 == spec_parse_table(data@)->Some_0.0
                    &&& t@.1 == spec_parse_table(data@)->Some_0.1
                    &&& rest@ == data@.subrange(
                        spec_parse_table(data@)->Some_0.2,
                        data@.len() as int,
                    )
                },
                Err(e) => {
                    &&& spec_parse_table(data@) is None
                    &&& match spec_parse_field(data@) {
                    None => e == spec_parse_field_err(data@),
                    Some((f, n)) => match f {
                        FieldView::Normal(NormalRionType::Table, w) => match spec_parse_elems(w) {
                            None => e == spec_parse_elems_err(w),
                            Some(es) => {
                                &&& spec_table_of_elems(es) is None
                                &&& if es.len() == 0 {
                                    e == DeserializeError::EmptyInput
                                } else {
                                    match es[0] {
                                        FieldView::Short(t, d) => if t
                                            != ShortRionType::Int64Positive || d.len() > 8 {
                                            e == DeserializeError::WrongType(
                                                RionFieldType::Short(ShortRionType::Int64Positive),
                                                RionFieldType::Short(t),
                                            )
                                        } else {
                                            e == DeserializeError::ExtraData
                                        },
                                        _ => e == DeserializeError::BadFamily(
                                            es[0].field_type(),
                                        ),
                                    }
                                }
                            },
                        },
                        _ => e == DeserializeError::WrongType(
                            RionFieldType::Normal(NormalRionType::Table),
                            f.field_type(),
                        ),
                    },
                }
                },
            },
    {
        let (field, rest) = match RionField::parse(data) {
            Ok(p) => p,
            Err(e) => {
                return Err(e);
            },
        };
        let nf = match field {
            RionField::Normal(nf) => {
                if !matches!(nf.field_type, NormalRionType::Table) {
                    return Err(
                        DeserializeError::WrongType(
                            RionFieldType::Normal(NormalRionType::Table),
                            RionFieldType::Normal(nf.field_type),
                        ),
                    );
                }
                nf
            },
            other => {
                return Err(
                    DeserializeError::WrongType(
                        RionFieldType::Normal(NormalRionType::Table),
                        other.field_type(),
                    ),
                );
            },
        };
        let mut fields = match parse_field_seq(nf.as_bytes()) {
            Ok(fs) => fs,
            Err(e) => {
                return Err(e);
            },
        };
        let ghost es = fields@.map_values(|f: RionField| f@);
        if fields.len() == 0 {
            return Err(DeserializeError::EmptyInput);
        }
        let first = fields.remove(0);
        let ghost restv = fields@.map_values(|f: RionField| f@);
        proof {
            assert(restv =~= es.drop_first());
        }
        proof {
            assert(es[0] == first@);
        }
        let m = match &first {
            RionField::Short(sf) => {
                if !matches!(sf.field_type, ShortRionType::Int64Positive) {
                    return Err(
                        DeserializeError::WrongType(
                            RionFieldType::Short(ShortRionType::Int64Positive),
                            RionFieldType::Short(sf.field_type),
                        ),
                    );
                }
                match sf.as_pos_int() {
                    Some(m) => m,
                    None => {
                        return Err(
                            DeserializeError::WrongType(
                                RionFieldType::Short(ShortRionType::Int64Positive),
                                RionFieldType::Short(sf.field_type),
                            ),
                        );
                    },
                }
            },
            other => {
                return Err(DeserializeError::BadFamily(other.field_type()));
            },
        };
        proof {
            assert(es[0] == first@);
            crate::num::lemma_be_val_fits_u64(es[0].data());
            assert(m == be_val(es[0].data()));
        }
        let mut n: usize = 0;
        while n < fields.len() && fields[n].is_key()
            invariant
                n <= fields@.len(),
                restv == fields@.map_values(|f: RionField| f@),
                forall|j: int| 0 <= j < n ==> (#[trigger] restv[j]).is_key(),
            decreases fields@.len() - n,
        {
            proof {
                assert(restv[n as int] == fields@[n as int]@);
            }
            n = n + 1;
        }
        proof {
            if n < fields.len() {
                assert(restv[n as int] == fields@[n as int]@);
            }
            lemma_count_leading_keys(restv, n as nat);
        }
        let rows = fields.split_off(n);
        let vals_count = rows.len();
        proof {
            assert(rows@.map_values(|f: RionField| f@) =~= restv.skip(n as int)) by {
                assert(forall|j: int|
                    0 <= j < rows@.len() ==> (#[trigger] rows@[j])@ == restv[n + j]);
            }
            assert(restv.skip(n as int).len() == vals_count);
            assert forall|j: int| 0 <= j < fields@.len() implies (#[trigger] fields@[j])@
                == restv[j] && restv[j].is_key() by {
                assert(fields@[j]@ == restv[j]);
            }
        }
        if n == 0 {
            if vals_count != 0 {
                proof {
                    lemma_table_count_mismatch(m as nat, 0, vals_count as nat);
                }
                return Err(DeserializeError::ExtraData);
            }
            proof {
                assert((m as nat) * 0 == 0) by (nonlinear_arith);
                assert((m as nat) * (n as nat) == vals_count as nat);
            }
        } else {
            let q = vals_count / n;
            let rem = vals_count % n;
            if rem != 0 || (q as u64) != m {
                proof {
                    lemma_fundamental_div_mod(vals_count as int, n as int);
                    if (m as nat) * (n as nat) == restv.skip(n as int).len() {
                        lemma_fundamental_div_mod_converse(
                            vals_count as int,
                            n as int,
                            m as int,
                            0,
                        );
                        assert((m as int) * (n as int) == (n as int) * (m as int))
                            by (nonlinear_arith);
                    }
                }
                return Err(DeserializeError::ExtraData);
            }
            proof {
                lemma_fundamental_div_mod(vals_count as int, n as int);
                assert((m as int) * (n as int) == (n as int) * (m as int)) by (nonlinear_arith);
                assert((m as nat) * (n as nat) == vals_count as nat);
            }
        }
        let mut column_names: Vec<Vec<u8>> = Vec::new();
        while fields.len() > 0
            invariant
                forall|j: int|
                    0 <= j < column_names@.len() ==> (#[trigger] column_names@[j])@ == restv[j].data()
                        && restv[j].is_key(),
                column_names@.len() + fields@.len() == n,
                n <= restv.len(),
                forall|j: int|
                    0 <= j < fields@.len() ==> (#[trigger] fields@[j])@ == restv[
                        column_names@.len() as int + j
                    ] && restv[column_names@.len() as int + j].is_key(),
            decreases fields@.len(),
        {
            let ghost done = column_names@.len() as int;
            let key_field = fields.remove(0);
            proof {
                assert(key_field@ == restv[done]);
                assert(restv[done].is_key());
            }
            match key_field.to_data() {
                Some(d) => {
                    column_names.push(d);
                },
                None => {
                    proof {
                        assert(false);
                    }
                    return Err(DeserializeError::ExpectedKey);
                },
            }
        }
        let table = RionTable { column_names, rows };
        proof {
            let spec_cols = Seq::new(n as nat, |i: int| restv[i].data());
            assert(table@.0 =~= spec_cols);
            assert(table@.1 =~= restv.skip(n as int));
            assert(es.drop_first() =~= restv);
            assert(spec_table_of_elems(es) == Some((spec_cols, restv.skip(n as int))));
        }
        Ok((table, rest))
    }

    /// Parses a table field that must take the whole buffer; trailing bytes
    /// are `ExtraData`.
    pub fn from_slice(data: &[u8]) -> (r: Result<RionTable, DeserializeError>)
        ensures
            match r {
                Ok(t) => {
                    &&& spec_parse_table(data@) is Some
                    &&& t@.0 == spec_parse_table(data@)->Some_0.0
                    &&& t@.1 == spec_parse_table(data@)->Some_0.1
                    &&& spec_parse_table(data@)->Some_0.2 == data@.len()
                },
                Err(e) => match spec_parse_table(data@) {
                    Some((c, v, n)) => n < data@.len() && e == DeserializeError::ExtraData,
                    None => match spec_parse_field(data@) {
                    None => e == spec_parse_field_err(data@),
                    Some((f, n)) => match f {
                        FieldView::Normal(NormalRionType::Table, w) => match spec_parse_elems(w) {
                            None => e == spec_parse_elems_err(w),
                            Some(es) => {
                                &&& spec_table_of_elems(es) is None
                                &&& if es.len() == 0 {
                                    e == DeserializeError::EmptyInput
                                } else {
                                    match es[0] {
                                        FieldView::Short(t, d) => if t
                                            != ShortRionType::Int64Positive || d.len() > 8 {
                                            e == DeserializeError::WrongType(
                                                RionFieldType::Short(ShortRionType::Int64Positive),
                                                RionFieldType::Short(t),
                                            )
                                        } else {
                                            e == DeserializeError::ExtraData
                                        },
                                        _ => e == DeserializeError::BadFamily(
                                            es[0].field_type(),
                                        ),
                                    }
                                }
                            },
                        },
                        _ => e == DeserializeError::WrongType(
                            RionFieldType::Normal(NormalRionType::Table),
                            f.field_type(),
                        ),
                    },
                },
                },
            },
    {
        match RionTable::parse(data) {
            Ok((t, rest)) => {
                if rest.len() > 0 {
                    proof {
                        assert(data@.subrange(
                            spec_parse_table(data@)->Some_0.2,
                            data@.len() as int,
                        ).len() > 0);
                    }
                    Err(DeserializeError::ExtraData)
                } else {
                    proof {
                        assert(data@.subrange(
                            spec_parse_table(data@)->Some_0.2,
                            data@.len() as int,
                        ).len() == 0);
                    }
                    Ok(t)
                }
            },
            Err(e) => Err(e),
        }
    }
}

/// With no columns, a non-zero value count can never satisfy the row
/// discipline.
proof fn lemma_table_count_mismatch(m: nat, n: nat, vals: nat)
    requires
        n == 0,
        vals != 0,
    ensures
        m * n != vals,
{
    assert(m * 0 == 0) by (nonlinear_arith);
}

} // verus!
