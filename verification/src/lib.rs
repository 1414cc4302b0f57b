//! A codec for the Redis serialization protocol: five kinds of value, each
//! held as its complete wire encoding, with a validating parser and an
//! encoder for every kind.
//!
//! [`grammar`] says what the validators answer and [`encoding`] what the
//! encoders write, both over sequences of bytes; the contracts of the value
//! types speak of nothing else. [`laws`], [`round_trip`] and [`rejection`]
//! hold what is proved of the two together. [`buffer`] is the one place
//! where something is believed and not proved: what the byte buffers of the
//! `bytes` crate do.

use bytes::Bytes;
use vstd::prelude::*;

pub use crate::array::{empty_array, null_array, Array, ArrayBuilder};
pub use crate::bulk_string::{empty_bulk_string, null_bulk_string, BulkString};
pub use crate::error::{Error, ErrorError};
pub use crate::integer::Integer;
pub use crate::simple_string::SimpleString;

pub mod array;
pub mod buffer;
pub mod bulk_string;
pub mod encoding;
pub mod error;
pub mod grammar;
pub mod integer;
pub mod laws;
pub mod rejection;
pub mod round_trip;
pub mod scan;
pub mod simple_string;

verus! {

/// Why a run of bytes is no value of the kind that was asked for.
#[derive(Debug, Clone, Copy, PartialEq, Eq)]
pub enum RespError {
    /// The first byte is not the tag of the kind.
    InvalidFirstChar,
    /// A length or count is no decimal number in its shortest form.
    InvalidLength,
    /// The digits of a length or count are not followed by a line ending.
    InvalidLengthSeparator,
    /// The bytes behind the tag cannot start a value, or an element of an
    /// array starts with no known tag.
    InvalidValue,
    /// The line ending that closes the value is missing.
    InvalidTerminate,
    /// The payload of a bulk string is not as long as its length says.
    LengthsNotMatch,
}

/// A value of any of the five kinds.
#[derive(Debug)]
pub enum RespType {
    /// A simple string.
    SimpleString(SimpleString),
    /// An error.
    Error(Error),
    /// An integer.
    Integer(Integer),
    /// A bulk string.
    BulkString(BulkString),
    /// An array.
    Array(Array),
}

impl View for RespType {
    type V = Seq<u8>;

    /// The bytes of the encoding that the value holds.
    open spec fn view(&self) -> Seq<u8> {
        match self {
            RespType::SimpleString(simple_string) => simple_string@,
            RespType::Error(error) => error@,
            RespType::Integer(integer) => integer@,
            RespType::BulkString(bulk_string) => bulk_string@,
            RespType::Array(array) => array@,
        }
    }
}

impl Clone for RespType {
    /// A second handle on the same encoding, of the same kind.
    fn clone(&self) -> (r: Self)
        ensures
            r.is_copy_of(*self),
    {
        match self {
            RespType::SimpleString(simple_string) => RespType::SimpleString(simple_string.clone()),
            RespType::Error(error) => RespType::Error(error.clone()),
            RespType::Integer(integer) => RespType::Integer(integer.clone()),
            RespType::BulkString(bulk_string) => RespType::BulkString(bulk_string.clone()),
            RespType::Array(array) => RespType::Array(array.clone()),
        }
    }
}

impl RespType {
    /// The value is of the same kind as `other` and holds the same encoding.
    pub open spec fn is_copy_of(self, other: RespType) -> bool {
        self@ == other@ && match (self, other) {
            (RespType::SimpleString(_), RespType::SimpleString(_)) => true,
            (RespType::Error(_), RespType::Error(_)) => true,
            (RespType::Integer(_), RespType::Integer(_)) => true,
            (RespType::BulkString(_), RespType::BulkString(_)) => true,
            (RespType::Array(_), RespType::Array(_)) => true,
            _ => false,
        }
    }

    /// The value it holds is well formed for its kind.
    pub open spec fn wf(&self) -> bool {
        match self {
            RespType::SimpleString(simple_string) => simple_string.wf(),
            RespType::Error(error) => error.wf(),
            RespType::Integer(integer) => integer.wf(),
            RespType::BulkString(bulk_string) => bulk_string.wf(),
            RespType::Array(array) => array.wf(),
        }
    }

    /// The length of the encoding.
    pub fn len(&self) -> (r: usize)
        ensures
            r == self@.len(),
    {
        match self {
            RespType::SimpleString(simple_string) => simple_string.len(),
            RespType::Error(error) => error.len(),
            RespType::Integer(integer) => integer.len(),
            RespType::BulkString(bulk_string) => bulk_string.len(),
            RespType::Array(array) => array.len(),
        }
    }

    /// A handle on the encoding.
    pub fn bytes(&self) -> (r: Bytes)
        ensures
            crate::buffer::bytes_view(r) == self@,
    {
        match self {
            RespType::SimpleString(simple_string) => simple_string.bytes(),
            RespType::Error(error) => error.bytes(),
            RespType::Integer(integer) => integer.bytes(),
            RespType::BulkString(bulk_string) => bulk_string.bytes(),
            RespType::Array(array) => array.bytes(),
        }
    }
}

impl RespError {
    /// The words for this error.
    pub open spec fn spec_message(self) -> Seq<char> {
        match self {
            RespError::InvalidFirstChar => "Invalid first char."@,
            RespError::InvalidLength => "Invalid length."@,
            RespError::InvalidLengthSeparator => "Invalid length separator."@,
            RespError::InvalidValue => "Invalid value."@,
            RespError::InvalidTerminate => "Invalid terminate."@,
            RespError::LengthsNotMatch => "Lengths do not match."@,
        }
    }

    /// The words for this error, as they are shown to a reader.
    pub fn message(&self) -> (r: String)
        ensures
            r@ == self.spec_message(),
    {
        match self {
            RespError::InvalidFirstChar => "Invalid first char.".to_owned(),
            RespError::InvalidLength => "Invalid length.".to_owned(),
            RespError::InvalidLengthSeparator => "Invalid length separator.".to_owned(),
            RespError::InvalidValue => "Invalid value.".to_owned(),
            RespError::InvalidTerminate => "Invalid terminate.".to_owned(),
            RespError::LengthsNotMatch => "Lengths do not match.".to_owned(),
        }
    }
}

} // verus!
