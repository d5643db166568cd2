//! Error taxonomy of the codec.
//!
//! Decoding surfaces a `DeserializeError`; encoding a `SerializeError`.
//! Every error names the condition it stands for, so contracts can say
//! exactly which inputs produce which error.

use vstd::prelude::*;

use crate::types::RionFieldType;

verus! {

/// An error raised while decoding RION bytes.
#[derive(Debug, Clone, PartialEq, Eq)]
pub enum DeserializeError {
    /// A field was expected but no bytes remain.
    EmptyInput,
    /// The lead byte is reserved (extended family) or a tiny field carries a
    /// low nibble outside 0, 1, 2.
    InvalidLead(u8),
    /// A declared length exceeds the bytes available: (expected, got).
    Truncated(usize, usize),
    /// Bytes remain after a complete top-level field or inside a container
    /// window after its last child.
    ExtraData,
    /// An object payload held a non-key field where a key was required.
    ExpectedKey,
    /// Two equal keys appeared in one object; carries the repeated key.
    DuplicateKey(Vec<u8>),
    /// A string was requested but the payload is not valid UTF-8.
    InvalidUtf8,
    /// A narrowing integer conversion would lose data.
    IntegerOutOfRange,
    /// A field of one type stood where another was required: (expected, got).
    WrongType(RionFieldType, RionFieldType),
    /// A field of the wrong family (tiny, short, normal) stood where a
    /// caller demanded another; carries the type found.
    BadFamily(RionFieldType),
    /// An enum value was neither a label nor a one-entry object.
    InvalidEnum,
}

/// An error raised while encoding a value to RION bytes.
#[derive(Debug, Clone, PartialEq, Eq)]
pub enum SerializeError {
    /// A payload length would need more than 15 bytes to describe.
    PayloadTooLarge(usize),
    /// A value that is not a string or key was used as an object key.
    InvalidKeyType(RionFieldType),
}

} // verus!
