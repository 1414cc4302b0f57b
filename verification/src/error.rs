//! Errors: `-`, a message without line breaks, and a line ending.

use crate::RespError;
use crate::buffer::{
    bytes_clone, bytes_copy_from_slice, bytes_copy_to_slice, bytes_eq, bytes_from_vec, bytes_len,
    bytes_mut_freeze, bytes_mut_put_slice, bytes_mut_put_u8, bytes_mut_with_capacity, bytes_slice,
    bytes_view,
};
use crate::encoding::{leaf_encoding, payload_of};
use crate::grammar::{is_line, leaf_validate, window, CR, LF, TAG_ERROR};
use crate::scan::{find_line_end, limit_of, validate_leaf};
use bytes::Bytes;
use vstd::prelude::*;

verus! {

/// Why a run of bytes is no error value, or no message for one.
#[derive(Debug, Clone, Copy, PartialEq, Eq)]
pub enum ErrorError {
    /// The message holds a carriage return or a line feed.
    InvalidValueChar,
    /// The first byte is not `-`.
    InvalidFirstChar,
    /// The line ending that closes the value is missing.
    InvalidTerminate,
}

impl ErrorError {
    /// The same reason among the errors that all kinds share.
    pub open spec fn as_resp_error(self) -> RespError {
        match self {
            ErrorError::InvalidValueChar => RespError::InvalidValue,
            ErrorError::InvalidFirstChar => RespError::InvalidFirstChar,
            ErrorError::InvalidTerminate => RespError::InvalidTerminate,
        }
    }

    /// The words for this error.
    pub open spec fn spec_message(self) -> Seq<char> {
        match self {
            ErrorError::InvalidValueChar => "[ErrorError] Invalid value char."@,
            ErrorError::InvalidFirstChar => "[ErrorError] Invalid first char."@,
            ErrorError::InvalidTerminate => "[ErrorError] Invalid terminate."@,
        }
    }

    /// The words for this error, as they are shown to a reader.
    pub fn message(&self) -> (r: String)
        ensures
            r@ == self.spec_message(),
    {
        match self {
            ErrorError::InvalidValueChar => "[ErrorError] Invalid value char.".to_owned(),
            ErrorError::InvalidFirstChar => "[ErrorError] Invalid first char.".to_owned(),
            ErrorError::InvalidTerminate => "[ErrorError] Invalid terminate.".to_owned(),
        }
    }
}

/// An error as a value of the protocol, held as its encoding.
#[derive(Debug)]
pub struct Error {
    bytes: Bytes,
}

impl View for Error {
    type V = Seq<u8>;

    /// The bytes of the encoding.
    closed spec fn view(&self) -> Seq<u8> {
        bytes_view(self.bytes)
    }
}

impl Clone for Error {
    /// A second handle on the same encoding.
    fn clone(&self) -> (r: Self)
        ensures
            r@ == self@,
    {
        Error { bytes: bytes_clone(&self.bytes) }
    }
}

impl PartialEq for Error {
    /// Two errors are equal when their encodings are.
    fn eq(&self, other: &Self) -> (r: bool) {
        bytes_eq(&self.bytes, &other.bytes)
    }
}

impl vstd::std_specs::cmp::PartialEqSpecImpl for Error {
    open spec fn obeys_eq_spec() -> bool {
        true
    }

    open spec fn eq_spec(&self, other: &Self) -> bool {
        self@ == other@
    }
}

impl Error {
    /// The encoding is one that [`Error::while_valid`] accepts whole.
    pub open spec fn wf(&self) -> bool {
        leaf_validate(self@, 0, TAG_ERROR) == Ok::<int, RespError>(self@.len() as int)
    }

    /// Encodes a message. The result is well formed exactly when the message
    /// holds no line break. The encoding must fit one buffer, which holds no
    /// more than `isize::MAX` bytes.
    pub fn new(input: &[u8]) -> (r: Self)
        requires
            input@.len() + 3 <= isize::MAX,
        ensures
            r@ == leaf_encoding(TAG_ERROR, input@),
            r.wf() <==> is_line(input@),
    {
        let mut bytes = bytes_mut_with_capacity(input.len() + 3);
        bytes_mut_put_u8(&mut bytes, TAG_ERROR);
        bytes_mut_put_slice(&mut bytes, input);
        bytes_mut_put_u8(&mut bytes, CR);
        bytes_mut_put_u8(&mut bytes, LF);
        let r = Self::from_bytes(bytes_mut_freeze(bytes));
        proof {
            assert(r@ =~= leaf_encoding(TAG_ERROR, input@));
            crate::round_trip::lemma_leaf_round_trip(TAG_ERROR, input@);
        }
        r
    }

    /// A handle on the encoding.
    pub fn bytes(&self) -> (r: Bytes)
        ensures
            bytes_view(r) == self@,
    {
        bytes_clone(&self.bytes)
    }

    /// The length of the encoding.
    pub fn len(&self) -> (r: usize)
        ensures
            r == self@.len(),
    {
        bytes_len(&self.bytes)
    }

    /// A copy of the message.
    pub fn value(&self) -> (r: Vec<u8>)
        requires
            self@.len() >= 3,
        ensures
            r@ == payload_of(self@),
    {
        let length = self.len();
        let mut bytes = bytes_slice(&self.bytes, 1, length - 2);
        let mut vector: Vec<u8> = vec![0u8; length - 3];
        bytes_copy_to_slice(&mut bytes, &mut vector);
        proof {
            assert(vector@ =~= payload_of(self@));
        }
        vector
    }

    /// Accepts a message that holds no line break.
    pub fn validate_value(input: &[u8]) -> (r: Result<(), ErrorError>)
        ensures
            r is Ok <==> is_line(input@),
            r is Err ==> r == Err::<(), ErrorError>(ErrorError::InvalidValueChar),
    {
        let length = input.len();
        let index = find_line_end(input, 0, length);
        proof {
            assert(input@.subrange(0, length as int) =~= input@);
            crate::laws::lemma_line_end_bounds(input@, 0);
        }
        if index != length {
            return Err(ErrorError::InvalidValueChar);
        }
        Ok(())
    }

    /// Adopts a buffer as an encoding, as it is.
    pub fn from_bytes(input: Bytes) -> (r: Self)
        ensures
            r@ == bytes_view(input),
    {
        Error { bytes: input }
    }

    /// Copies a slice as an encoding, as it is.
    pub fn from_slice(input: &[u8]) -> (r: Self)
        ensures
            r@ == input@,
    {
        let bytes = bytes_copy_from_slice(input);
        Self::from_bytes(bytes)
    }

    /// Takes a vector over as an encoding, as it is.
    pub fn from_raw(input: Vec<u8>) -> (r: Self)
        ensures
            r@ == input@,
    {
        let bytes = bytes_from_vec(input);
        Self::from_bytes(bytes)
    }

    /// Validates the error that starts at `start`, reading below
    /// `end`, and moves `start` past it. On an error `start` stays.
    pub fn while_valid(input: &[u8], start: &mut usize, end: &usize) -> (r: Result<(), RespError>)
        ensures
            match r {
                Ok(_) => leaf_validate(
                    window(input@, *end as int),
                    *old(start) as int,
                    TAG_ERROR,
                ) == Ok::<int, RespError>(*final(start) as int),
                Err(e) => leaf_validate(
                    window(input@, *end as int),
                    *old(start) as int,
                    TAG_ERROR,
                ) == Err::<int, RespError>(e) && *final(start) == *old(start),
            },
    {
        let limit = limit_of(input, *end);
        match validate_leaf(input, *start, limit, TAG_ERROR) {
            Ok(next) => {
                *start = next;
                Ok(())
            },
            Err(e) => Err(e),
        }
    }

    /// Decodes the error that starts at `start`, reading below `end`: a copy
    /// of its bytes, with `start` moved past it. On an error `start` stays.
    pub fn parse(input: &[u8], start: &mut usize, end: &usize) -> (r: Result<Self, ErrorError>)
        ensures
            match r {
                Ok(value) => {
                    &&& leaf_validate(window(input@, *end as int), *old(start) as int, TAG_ERROR)
                        == Ok::<int, RespError>(*final(start) as int)
                    &&& *old(start) < *final(start) <= input@.len()
                    &&& value@ == input@.subrange(*old(start) as int, *final(start) as int)
                    &&& value.wf()
                },
                Err(e) => {
                    &&& e != ErrorError::InvalidValueChar
                    &&& leaf_validate(window(input@, *end as int), *old(start) as int, TAG_ERROR)
                        == Err::<int, RespError>(e.as_resp_error())
                    &&& *final(start) == *old(start)
                },
            },
    {
        let limit = limit_of(input, *end);
        match validate_leaf(input, *start, limit, TAG_ERROR) {
            Ok(next) => {
                let value = Self::from_slice(&input[*start..next]);
                proof {
                    let w = input@.subrange(0, limit as int);
                    assert(w.subrange(*start as int, next as int) =~= value@.subrange(
                        0,
                        value@.len() as int,
                    ));
                    crate::laws::lemma_leaf_frame(
                        w,
                        *start as int,
                        value@,
                        0,
                        next - *start,
                        TAG_ERROR,
                    );
                }
                *start = next;
                Ok(value)
            },
            Err(RespError::InvalidFirstChar) => Err(ErrorError::InvalidFirstChar),
            Err(_) => Err(ErrorError::InvalidTerminate),
        }
    }
}

} // verus!
