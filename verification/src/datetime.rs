//! UTC date-time fields.
//!
//! A date-time is packed as big-endian year, then month, day, hour, minute
//! and second bytes with trailing zero bytes trimmed, then a sub-second tail
//! of 0, 2, 3 or 4 bytes for none, millisecond, microsecond or nanosecond
//! precision.  The canonical form is at most 11 bytes, so it always fits a
//! short field.  Only encoding is defined; the wire layer still transports
//! any date-time payload as raw bytes.

use vstd::prelude::*;

use crate::field::{be_fixed, FieldView, RionField, ShortField};
use crate::types::ShortRionType;

verus! {

/// A calendar timestamp held as plain values.
#[derive(Debug, Clone, Copy, PartialEq, Eq, Structural)]
pub struct RionDateTime {
    pub year: u16,
    pub month: u8,
    pub day: u8,
    pub hour: u8,
    pub minute: u8,
    pub second: u8,
    pub nanos: u32,
}

impl RionDateTime {
    /// Component ranges of a calendar timestamp; nanoseconds above one
    /// billion stand for a leap second.
    pub open spec fn wf(&self) -> bool {
        &&& self.month <= 12
        &&& self.day <= 31
        &&& self.hour <= 23
        &&& self.minute <= 59
        &&& self.second <= 59
        &&& self.nanos <= 1_999_999_999
    }
}

/// Removes every trailing zero byte.
pub open spec fn trim_trailing_zeros(s: Seq<u8>) -> Seq<u8>
    decreases s.len(),
{
    if s.len() == 0 {
        s
    } else if s.last() == 0 {
        trim_trailing_zeros(s.drop_last())
    } else {
        s
    }
}

/// The seven date components in wire order, untrimmed.
pub open spec fn datetime_components(d: RionDateTime) -> Seq<u8> {
    seq![
        (d.year / 256) as u8,
        (d.year % 256) as u8,
        d.month,
        d.day,
        d.hour,
        d.minute,
        d.second,
    ]
}

/// The sub-second tail: absent for zero, two bytes of milliseconds, three
/// of microseconds, or four of nanoseconds, at the coarsest exact precision.
pub open spec fn subsecond_tail(nanos: u32) -> Seq<u8> {
    if nanos == 0 {
        Seq::<u8>::empty()
    } else if nanos % 1_000_000 == 0 {
        be_fixed((nanos / 1_000_000) as nat, 2)
    } else if nanos % 1_000 == 0 {
        be_fixed((nanos / 1_000) as nat, 3)
    } else {
        be_fixed(nanos as nat, 4)
    }
}

/// The payload of a date-time field: trimmed components, then the tail.
pub open spec fn datetime_payload(d: RionDateTime) -> Seq<u8> {
    trim_trailing_zeros(datetime_components(d)) + subsecond_tail(d.nanos)
}

impl RionDateTime {
    /// Builds the date-time field holding this timestamp's canonical
    /// payload.
    pub fn to_field(&self) -> (r: RionField)
        ensures
            r@ == FieldView::Short(ShortRionType::UTCDateTime, datetime_payload(*self)),
            r.wf(),
    {
        let mut comps: Vec<u8> = Vec::new();
        comps.push((self.year / 256) as u8);
        comps.push((self.year % 256) as u8);
        comps.push(self.month);
        comps.push(self.day);
        comps.push(self.hour);
        comps.push(self.minute);
        comps.push(self.second);
        proof {
            assert(comps@ =~= datetime_components(*self));
        }
        loop
            invariant
                trim_trailing_zeros(comps@) == trim_trailing_zeros(datetime_components(*self)),
                comps@.len() <= 7,
            ensures
                comps@ == trim_trailing_zeros(datetime_components(*self)),
                comps@.len() <= 7,
            decreases comps@.len(),
        {
            if comps.len() == 0 {
                proof {
                    assert(trim_trailing_zeros(comps@) == comps@);
                }
                break ;
            }
            let last = comps[comps.len() - 1];
            if last != 0 {
                proof {
                    assert(comps@.last() != 0);
                    assert(trim_trailing_zeros(comps@) == comps@);
                }
                break ;
            }
            proof {
                assert(comps@.last() == 0);
                assert(trim_trailing_zeros(comps@) == trim_trailing_zeros(comps@.drop_last()));
            }
            comps.pop();
        }
        let nanos = self.nanos;
        if nanos != 0 {
            if nanos % 1_000_000 == 0 {
                crate::field::push_be_fixed((nanos / 1_000_000) as u64, 2, &mut comps);
            } else if nanos % 1_000 == 0 {
                crate::field::push_be_fixed((nanos / 1_000) as u64, 3, &mut comps);
            } else {
                crate::field::push_be_fixed(nanos as u64, 4, &mut comps);
            }
        }
        proof {
            assert(comps@ =~= datetime_payload(*self));
            crate::field::lemma_be_fixed_len((self.nanos / 1_000_000) as nat, 2);
            crate::field::lemma_be_fixed_len((self.nanos / 1_000) as nat, 3);
            crate::field::lemma_be_fixed_len(self.nanos as nat, 4);
            assert(comps@.len() <= 11);
        }
        RionField::Short(ShortField::new(ShortRionType::UTCDateTime, comps))
    }
}

/// A UTC timestamp carried opaquely from chrono; the codec reads it only
/// through the component accessors below.  The chrono value inside is
/// hidden from verification, so this struct is trusted.
#[verifier::external_body]
pub struct UtcStamp {
    inner: chrono::DateTime<chrono::Utc>,
}

impl UtcStamp {
    /// Relies on std's `SystemTime` clock read and chrono's
    /// `DateTime::from_timestamp`: the current time, of which nothing is
    /// promised.  A clock before the Unix epoch, or outside chrono's range,
    /// falls back to the epoch rather than panic.
    #[verifier::external_body]
    pub fn now() -> UtcStamp {
        let inner = std::time::SystemTime::now()
            .duration_since(std::time::UNIX_EPOCH)
            .ok()
            .and_then(|d| chrono::DateTime::from_timestamp(d.as_secs() as i64, d.subsec_nanos()))
            .unwrap_or(chrono::DateTime::UNIX_EPOCH);
        UtcStamp { inner }
    }

    /// Relies on chrono's `DateTime::from_timestamp`: builds the timestamp
    /// at the given Unix seconds and sub-second nanoseconds, or nothing
    /// when chrono rejects them as out of range.
    #[verifier::external_body]
    pub fn from_timestamp(secs: i64, nanos: u32) -> Option<UtcStamp> {
        match chrono::DateTime::from_timestamp(secs, nanos) {
            Some(inner) => Some(UtcStamp { inner }),
            None => None,
        }
    }

    /// Relies on chrono's `Datelike::year`: the calendar year number.
    #[verifier::external_body]
    pub fn year(&self) -> i32 {
        chrono::Datelike::year(&self.inner)
    }

    /// Relies on chrono's `Datelike::month`: the month number, 1 to 12.
    #[verifier::external_body]
    pub fn month(&self) -> (r: u8)
        ensures
            1 <= r <= 12,
    {
        chrono::Datelike::month(&self.inner) as u8
    }

    /// Relies on chrono's `Datelike::day`: the day of month, 1 to 31.
    #[verifier::external_body]
    pub fn day(&self) -> (r: u8)
        ensures
            1 <= r <= 31,
    {
        chrono::Datelike::day(&self.inner) as u8
    }

    /// Relies on chrono's `Timelike::hour`: the hour, 0 to 23.
    #[verifier::external_body]
    pub fn hour(&self) -> (r: u8)
        ensures
            r <= 23,
    {
        chrono::Timelike::hour(&self.inner) as u8
    }

    /// Relies on chrono's `Timelike::minute`: the minute, 0 to 59.
    #[verifier::external_body]
    pub fn minute(&self) -> (r: u8)
        ensures
            r <= 59,
    {
        chrono::Timelike::minute(&self.inner) as u8
    }

    /// Relies on chrono's `Timelike::second`: the second, 0 to 59.
    #[verifier::external_body]
    pub fn second(&self) -> (r: u8)
        ensures
            r <= 59,
    {
        chrono::Timelike::second(&self.inner) as u8
    }

    /// Relies on chrono's `Timelike::nanosecond`: sub-second nanoseconds,
    /// at most 1,999,999,999 (values above one billion stand for a leap
    /// second).
    #[verifier::external_body]
    pub fn nanosecond(&self) -> (r: u32)
        ensures
            r <= 1_999_999_999,
    {
        chrono::Timelike::nanosecond(&self.inner)
    }
}

impl RionField {
    /// Builds a date-time field from a chrono UTC timestamp.  Years outside
    /// 0..=65535 are clamped to that range; every other component is taken
    /// as chrono reports it.
    pub fn from_datetime(dt: &UtcStamp) -> (r: RionField)
        ensures
            exists|d: RionDateTime|
                d.wf() && r@ == FieldView::Short(ShortRionType::UTCDateTime, datetime_payload(d)),
            r.wf(),
    {
        let raw_year = dt.year();
        let year: u16 = if raw_year < 0 {
            0
        } else if raw_year > 0xFFFF {
            0xFFFF
        } else {
            raw_year as u16
        };
        let d = RionDateTime {
            year,
            month: dt.month(),
            day: dt.day(),
            hour: dt.hour(),
            minute: dt.minute(),
            second: dt.second(),
            nanos: dt.nanosecond(),
        };
        let f = d.to_field();
        proof {
            assert(d.wf() && f@ == FieldView::Short(
                ShortRionType::UTCDateTime,
                datetime_payload(d),
            ));
        }
        f
    }
}

} // verus!
