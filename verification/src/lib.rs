//! A codec for the RION binary interchange format.
//!
//! Every RION field begins with a single lead byte: the high nibble names
//! the type, the low nibble is a payload length (short fields), a
//! length-of-length (normal fields), or a small inline value (tiny fields).
//! Integers are packed big-endian with leading zero bytes stripped, so every
//! value has one canonical wire form; containers frame their children in a
//! length-prefixed payload window that decoding must consume exactly.
//!
//! The mathematical parser and printer live beside the executable code, and
//! every function here is proved against them; the laws module states the
//! round-trip, canonical-form, length-precision and window-closure
//! guarantees outright.

mod array;
mod datetime;
mod de;
mod errors;
mod field;
mod laws;
mod num;
mod object;
mod ser;
mod table;
mod types;
mod window;

pub use array::RionArray;
pub use datetime::{RionDateTime, UtcStamp};
pub use de::{from_bytes, Deserializer, RionDeserialize};
pub use errors::{DeserializeError, SerializeError};
pub use field::{FieldView, NormalField, RionField, ShortField};
pub use laws::{
    lemma_advance_bounds, lemma_array_decode_encode, lemma_canonical_form, lemma_float_bits_round_trip,
    lemma_length_precision, lemma_object_decode_encode, lemma_round_trip, lemma_window_closure,
};
pub use num::{bytes_to_uint, int_to_bytes, needed_bytes, needed_bytes_usize};
pub use object::RionObject;
pub use ser::{to_bytes, RionSerialize, Serializer, SizedSerializer};
pub use table::RionTable;
pub use types::{LeadByte, NormalRionType, RionFieldType, ShortRionType};
