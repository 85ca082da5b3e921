//! A streaming, recursion-free JSON decoder core for heapless environments.
//!
//! The engine walks RFC 8259 input one byte at a time, driven by an explicit
//! parser stack instead of recursion, so arbitrarily deep documents can never
//! exhaust the call stack: the only depth limit is the stack implementation's
//! own capacity.  Values are reached through short-lived cursors lent out by
//! the [`Deserializer`]; disposing a cursor, consumed or not, realigns the
//! input for the next sibling or parent.

use vstd::prelude::*;

mod reader;
mod stack;
mod number;
mod strings;
mod deserializer;
mod serialize;

pub use reader::SliceError;
pub use stack::{State, Stack, ConstStack, GrowStack};
pub use number::{Number, NumberSink};
pub use strings::{non_ascii_utf8_codepoint_len, read_hex, utf8_codepoint_to_char, validate_hex};
pub use deserializer::{Deserializer, Value, Field, FieldIterator, ArrayIterator};
pub use serialize::{JsonSerialize, JsonDeserialize, JsonStructure, deserialize_structure, deserialize_array, deserialize_map, serialize_map, serialize_field, Tri};

verus! {

/// An error incurred when deserializing.
#[derive(Clone, Copy, Debug, PartialEq, Eq, Structural)]
pub enum JsonError {
    /// An unexpected state was reached during deserialization.
    InternalError,
    /// An error from the byte source.
    ReadError(SliceError),
    /// An error from the stack.
    StackError(StackError),
    /// The deserializer was reused.
    ReusedDeserializer,
    /// The JSON had an invalid key.
    InvalidKey,
    /// The JSON had an invalid delimiter between the key and value (`:` expected).
    InvalidKeyValueDelimiter,
    /// The JSON had an invalid value.
    InvalidValue,
    /// The string represented by the JSON serialization was valid yet not UTF-8.
    NotUtf8,
    /// The JSON had a trailing comma.
    TrailingComma,
    /// The JSON had mismatched delimiters between the open and close of the structure.
    MismatchedDelimiter,
    /// Operation could not be performed given the value's type.
    TypeError,
}

/// The type of a JSON value, per RFC 8259 section 3.
#[derive(Clone, Copy, Debug, PartialEq, Eq, Structural)]
pub enum Type {
    /// An object.
    Object,
    /// An array.
    Array,
    /// A string.
    String,
    /// An RFC 8259 number.
    Number,
    /// A boolean.
    Bool,
    /// The `null` unit value.
    Null,
}

/// An error with the stack.
#[derive(Clone, Copy, Debug, PartialEq, Eq, Structural)]
pub enum StackError {
    /// The stack's depth limit was exceeded.
    StackTooDeep,
}

} // verus!
