//! Lead-byte taxonomy.
//!
//! The high nibble of a lead byte names the type; the low nibble L is a
//! payload length (short family), a length-of-length (normal family), or a
//! small inline value (tiny family, used for booleans).  The nibble 0xF is
//! reserved and rejected on decode.

use vstd::prelude::*;

use crate::errors::DeserializeError;

verus! {

/// Types whose lead byte carries the payload length directly in L.
#[derive(Debug, Clone, Copy, PartialEq, Eq, Hash, Structural)]
pub enum ShortRionType {
    Int64Positive,
    Int64Negative,
    UTF8,
    UTCDateTime,
    Float,
    Key,
}

/// Types whose lead byte carries a length-of-length in L, followed by a
/// compact big-endian payload length.
#[derive(Debug, Clone, Copy, PartialEq, Eq, Hash, Structural)]
pub enum NormalRionType {
    Bytes,
    UTF8,
    Array,
    Table,
    Object,
    Key,
}

/// The full type taxonomy read from a lead byte.
#[derive(Debug, Clone, Copy, PartialEq, Eq, Hash, Structural)]
pub enum RionFieldType {
    Short(ShortRionType),
    Normal(NormalRionType),
    Bool(Option<bool>),
    Extended,
}

/// The type nibble of a short type.
pub open spec fn spec_short_nibble(t: ShortRionType) -> u8 {
    match t {
        ShortRionType::Int64Positive => 0x2,
        ShortRionType::Int64Negative => 0x3,
        ShortRionType::Float => 0x4,
        ShortRionType::UTF8 => 0x6,
        ShortRionType::UTCDateTime => 0x7,
        ShortRionType::Key => 0xE,
    }
}

/// The type nibble of a normal type.
pub open spec fn spec_normal_nibble(t: NormalRionType) -> u8 {
    match t {
        NormalRionType::Bytes => 0x0,
        NormalRionType::UTF8 => 0x5,
        NormalRionType::Array => 0xA,
        NormalRionType::Table => 0xB,
        NormalRionType::Object => 0xC,
        NormalRionType::Key => 0xD,
    }
}

/// The low nibble that a tiny boolean field carries: 0 null, 1 false, 2 true.
pub open spec fn spec_bool_low(v: Option<bool>) -> u8 {
    match v {
        None => 0,
        Some(false) => 1,
        Some(true) => 2,
    }
}

/// The short type named by a high nibble, if any.
pub open spec fn spec_short_of_nibble(h: u8) -> Option<ShortRionType> {
    if h == 0x2 {
        Some(ShortRionType::Int64Positive)
    } else if h == 0x3 {
        Some(ShortRionType::Int64Negative)
    } else if h == 0x4 {
        Some(ShortRionType::Float)
    } else if h == 0x6 {
        Some(ShortRionType::UTF8)
    } else if h == 0x7 {
        Some(ShortRionType::UTCDateTime)
    } else if h == 0xE {
        Some(ShortRionType::Key)
    } else {
        None
    }
}

/// The normal type named by a high nibble, if any.
pub open spec fn spec_normal_of_nibble(h: u8) -> Option<NormalRionType> {
    if h == 0x0 {
        Some(NormalRionType::Bytes)
    } else if h == 0x5 {
        Some(NormalRionType::UTF8)
    } else if h == 0xA {
        Some(NormalRionType::Array)
    } else if h == 0xB {
        Some(NormalRionType::Table)
    } else if h == 0xC {
        Some(NormalRionType::Object)
    } else if h == 0xD {
        Some(NormalRionType::Key)
    } else {
        None
    }
}

/// How a whole lead byte classifies, or `None` for an invalid one:
/// a tiny field whose low nibble is not 0, 1 or 2, or the unassigned
/// high nibbles 0x8 and 0x9.
pub open spec fn spec_classify_lead(b: u8) -> Option<RionFieldType> {
    let h = b / 16;
    let l = b % 16;
    if h == 0x1 {
        if l == 0 {
            Some(RionFieldType::Bool(None))
        } else if l == 1 {
            Some(RionFieldType::Bool(Some(false)))
        } else if l == 2 {
            Some(RionFieldType::Bool(Some(true)))
        } else {
            None
        }
    } else if h == 0xF {
        Some(RionFieldType::Extended)
    } else if spec_short_of_nibble(h) is Some {
        Some(RionFieldType::Short(spec_short_of_nibble(h)->Some_0))
    } else if spec_normal_of_nibble(h) is Some {
        Some(RionFieldType::Normal(spec_normal_of_nibble(h)->Some_0))
    } else {
        None
    }
}

impl ShortRionType {
    /// The type nibble of this short type.
    pub fn to_byte(self) -> (r: u8)
        ensures
            r == spec_short_nibble(self),
    {
        match self {
            ShortRionType::Int64Positive => 0x2,
            ShortRionType::Int64Negative => 0x3,
            ShortRionType::Float => 0x4,
            ShortRionType::UTF8 => 0x6,
            ShortRionType::UTCDateTime => 0x7,
            ShortRionType::Key => 0xE,
        }
    }
}

impl NormalRionType {
    /// The type nibble of this normal type.
    pub fn to_byte(self) -> (r: u8)
        ensures
            r == spec_normal_nibble(self),
    {
        match self {
            NormalRionType::Bytes => 0x0,
            NormalRionType::UTF8 => 0x5,
            NormalRionType::Array => 0xA,
            NormalRionType::Table => 0xB,
            NormalRionType::Object => 0xC,
            NormalRionType::Key => 0xD,
        }
    }
}

impl RionFieldType {
    /// The type nibble, except for booleans, whose whole lead byte comes back.
    pub fn to_byte(self) -> (r: u8)
        ensures
            r == match self {
                RionFieldType::Short(t) => spec_short_nibble(t),
                RionFieldType::Normal(t) => spec_normal_nibble(t),
                RionFieldType::Extended => 0xF,
                RionFieldType::Bool(v) => (0x10 + spec_bool_low(v)) as u8,
            },
    {
        match self {
            RionFieldType::Short(short) => short.to_byte(),
            RionFieldType::Normal(normal) => normal.to_byte(),
            RionFieldType::Extended => 0xF,
            RionFieldType::Bool(lead) => match lead {
                None => 0x10,
                Some(false) => 0x11,
                Some(true) => 0x12,
            },
        }
    }

    /// Classifies a whole lead byte.
    /// Fails with `InvalidLead` exactly when the tiny low nibble is above 2.
    pub fn from_byte(value: u8) -> (r: Result<RionFieldType, DeserializeError>)
        ensures
            r == match spec_classify_lead(value) {
                Some(t) => Ok::<RionFieldType, DeserializeError>(t),
                None => Err::<RionFieldType, DeserializeError>(
                    DeserializeError::InvalidLead(value),
                ),
            },
    {
        let h = value / 16;
        let l = value % 16;
        match h {
            0x1 => match l {
                0 => Ok(RionFieldType::Bool(None)),
                1 => Ok(RionFieldType::Bool(Some(false))),
                2 => Ok(RionFieldType::Bool(Some(true))),
                _ => Err(DeserializeError::InvalidLead(value)),
            },
            0xF => Ok(RionFieldType::Extended),
            0x2 => Ok(RionFieldType::Short(ShortRionType::Int64Positive)),
            0x3 => Ok(RionFieldType::Short(ShortRionType::Int64Negative)),
            0x4 => Ok(RionFieldType::Short(ShortRionType::Float)),
            0x6 => Ok(RionFieldType::Short(ShortRionType::UTF8)),
            0x7 => Ok(RionFieldType::Short(ShortRionType::UTCDateTime)),
            0xE => Ok(RionFieldType::Short(ShortRionType::Key)),
            0x0 => Ok(RionFieldType::Normal(NormalRionType::Bytes)),
            0x5 => Ok(RionFieldType::Normal(NormalRionType::UTF8)),
            0xA => Ok(RionFieldType::Normal(NormalRionType::Array)),
            0xB => Ok(RionFieldType::Normal(NormalRionType::Table)),
            0xC => Ok(RionFieldType::Normal(NormalRionType::Object)),
            0xD => Ok(RionFieldType::Normal(NormalRionType::Key)),
            _ => Err(DeserializeError::InvalidLead(value)),
        }
    }

    /// True of the two key types, short and long.
    pub fn is_key(&self) -> (r: bool)
        ensures
            r == spec_is_key_type(*self),
    {
        match self {
            RionFieldType::Short(ShortRionType::Key) => true,
            RionFieldType::Normal(NormalRionType::Key) => true,
            _ => false,
        }
    }

    /// True of the two UTF-8 string types, short and long.
    pub fn is_str(&self) -> (r: bool)
        ensures
            r == spec_is_str_type(*self),
    {
        match self {
            RionFieldType::Short(ShortRionType::UTF8) => true,
            RionFieldType::Normal(NormalRionType::UTF8) => true,
            _ => false,
        }
    }

    /// True when this is the given normal type.
    pub fn is_normal_type(&self, ft: NormalRionType) -> (r: bool)
        ensures
            r == (*self == RionFieldType::Normal(ft)),
    {
        match self {
            RionFieldType::Normal(t) => *t == ft,
            _ => false,
        }
    }

    /// True when this is the given short type.
    pub fn is_short_type(&self, ft: ShortRionType) -> (r: bool)
        ensures
            r == (*self == RionFieldType::Short(ft)),
    {
        match self {
            RionFieldType::Short(t) => *t == ft,
            _ => false,
        }
    }

    pub fn is_short(&self) -> (r: bool)
        ensures
            r == (*self is Short),
    {
        match self {
            RionFieldType::Short(_) => true,
            _ => false,
        }
    }

    pub fn is_normal(&self) -> (r: bool)
        ensures
            r == (*self is Normal),
    {
        match self {
            RionFieldType::Normal(_) => true,
            _ => false,
        }
    }

    pub fn is_extended(&self) -> (r: bool)
        ensures
            r == (*self is Extended),
    {
        match self {
            RionFieldType::Extended => true,
            _ => false,
        }
    }

    pub fn is_tiny(&self) -> (r: bool)
        ensures
            r == (*self is Bool),
    {
        match self {
            RionFieldType::Bool(_) => true,
            _ => false,
        }
    }

    /// True of anything that can label an enum variant: a key or a string.
    pub fn is_label(&self) -> (r: bool)
        ensures
            r == (spec_is_key_type(*self) || spec_is_str_type(*self)),
    {
        self.is_key() || self.is_str()
    }
}

pub open spec fn spec_is_key_type(t: RionFieldType) -> bool {
    t == RionFieldType::Short(ShortRionType::Key) || t == RionFieldType::Normal(
        NormalRionType::Key,
    )
}

pub open spec fn spec_is_str_type(t: RionFieldType) -> bool {
    t == RionFieldType::Short(ShortRionType::UTF8) || t == RionFieldType::Normal(
        NormalRionType::UTF8,
    )
}

/// A classified lead byte: the field type together with the low nibble.
#[derive(Debug, Clone, Copy, PartialEq, Eq, Hash, Structural)]
pub struct LeadByte(pub RionFieldType, pub u8);

impl LeadByte {
    /// Builds a lead byte from a type and a low nibble.
    pub fn from_type(field_type: RionFieldType, length: u8) -> (r: LeadByte)
        ensures
            r == LeadByte(field_type, length),
    {
        LeadByte(field_type, length)
    }

    /// Classifies a raw lead byte.
    /// Fails with `InvalidLead` exactly when the tiny low nibble is above 2.
    pub fn from_byte(value: u8) -> (r: Result<LeadByte, DeserializeError>)
        ensures
            r == match spec_classify_lead(value) {
                Some(t) => Ok::<LeadByte, DeserializeError>(LeadByte(t, (value % 16) as u8)),
                None => Err::<LeadByte, DeserializeError>(DeserializeError::InvalidLead(value)),
            },
    {
        match RionFieldType::from_byte(value) {
            Ok(ft) => Ok(LeadByte(ft, value % 16)),
            Err(e) => Err(e),
        }
    }

    pub fn field_type(self) -> (r: RionFieldType)
        ensures
            r == self.0,
    {
        self.0
    }

    /// The L nibble as a length: 0 for tiny fields, the low nibble otherwise.
    pub fn length(self) -> (r: u8)
        ensures
            r == spec_lead_length(self),
    {
        match self.0 {
            RionFieldType::Bool(_) => 0,
            _ => self.1 % 16,
        }
    }

    /// True of the null boolean and of every field whose length nibble is 0.
    pub fn is_null(self) -> (r: bool)
        ensures
            r == spec_lead_is_null(self),
    {
        match self.0 {
            RionFieldType::Bool(v) => v.is_none(),
            _ => self.length() == 0,
        }
    }

    pub fn is_short(self) -> (r: bool)
        ensures
            r == (self.0 is Short),
    {
        self.0.is_short()
    }

    pub fn is_normal(self) -> (r: bool)
        ensures
            r == (self.0 is Normal),
    {
        self.0.is_normal()
    }

    /// The raw lead byte: type nibble high, L nibble low.
    pub fn byte(self) -> (r: u8)
        ensures
            r == spec_lead_byte(self),
    {
        match self.0 {
            RionFieldType::Short(t) => t.to_byte() * 16 + self.1 % 16,
            RionFieldType::Normal(t) => t.to_byte() * 16 + self.1 % 16,
            RionFieldType::Extended => 0xF0 + self.1 % 16,
            RionFieldType::Bool(v) => match v {
                None => 0x10,
                Some(false) => 0x11,
                Some(true) => 0x12,
            },
        }
    }

    /// The boolean a tiny field carries, `None` for every other family.
    pub fn as_bool(self) -> (r: Option<bool>)
        ensures
            r == match self.0 {
                RionFieldType::Bool(v) => v,
                _ => None::<bool>,
            },
    {
        match self.0 {
            RionFieldType::Bool(lead) => lead,
            _ => None,
        }
    }
}

/// Equal type nibbles name equal normal types.
pub proof fn lemma_normal_nibble_inj(a: NormalRionType, b: NormalRionType)
    requires
        spec_normal_nibble(a) == spec_normal_nibble(b),
    ensures
        a == b,
{
}

pub open spec fn spec_lead_length(l: LeadByte) -> u8 {
    match l.0 {
        RionFieldType::Bool(_) => 0,
        _ => (l.1 % 16) as u8,
    }
}

pub open spec fn spec_lead_is_null(l: LeadByte) -> bool {
    match l.0 {
        RionFieldType::Bool(v) => v is None,
        _ => spec_lead_length(l) == 0,
    }
}

pub open spec fn spec_lead_byte(l: LeadByte) -> u8 {
    match l.0 {
        RionFieldType::Short(t) => (spec_short_nibble(t) * 16 + l.1 % 16) as u8,
        RionFieldType::Normal(t) => (spec_normal_nibble(t) * 16 + l.1 % 16) as u8,
        RionFieldType::Extended => (0xF0 + l.1 % 16) as u8,
        RionFieldType::Bool(v) => (0x10 + spec_bool_low(v)) as u8,
    }
}

} // verus!
