//! Bulk strings: `$`, the payload's length, a line ending, the payload and a
//! line ending; or the null marker in place of all that follows the tag.

use crate::RespError;
use crate::buffer::{
    bytes_clone, bytes_copy_from_slice, bytes_eq, bytes_from_static, bytes_from_vec, bytes_len,
    bytes_mut_freeze, bytes_mut_put_slice, bytes_mut_put_u8, bytes_mut_with_capacity, bytes_view,
};
use crate::encoding::{
    bulk_encoding, decimal_of, empty_bulk_string_encoding, null_bulk_string_encoding,
};
use crate::grammar::{bulk_validate, is_line, window, CR, LF, ONE, TAG_BULK_STRING, TAG_ERROR, ZERO};
use crate::scan::{limit_of, validate_bulk};
use bytes::Bytes;
use vstd::prelude::*;

verus! {

/// A bulk string, held as its encoding.
#[derive(Debug)]
pub struct BulkString {
    bytes: Bytes,
}

impl View for BulkString {
    type V = Seq<u8>;

    /// The bytes of the encoding.
    closed spec fn view(&self) -> Seq<u8> {
        bytes_view(self.bytes)
    }
}

impl Clone for BulkString {
    /// A second handle on the same encoding.
    fn clone(&self) -> (r: Self)
        ensures
            r@ == self@,
    {
        BulkString { bytes: bytes_clone(&self.bytes) }
    }
}

impl PartialEq for BulkString {
    /// Two bulk strings are equal when their encodings are.
    fn eq(&self, other: &Self) -> (r: bool) {
        bytes_eq(&self.bytes, &other.bytes)
    }
}

impl vstd::std_specs::cmp::PartialEqSpecImpl for BulkString {
    open spec fn obeys_eq_spec() -> bool {
        true
    }

    open spec fn eq_spec(&self, other: &Self) -> bool {
        self@ == other@
    }
}

const EMPTY: [u8; 6] = [TAG_BULK_STRING, ZERO, CR, LF, CR, LF];

const NULL: [u8; 5] = [TAG_BULK_STRING, TAG_ERROR, ONE, CR, LF];

/// The bulk string without a payload. Nothing is allocated for it.
pub fn empty_bulk_string() -> (r: BulkString)
    ensures
        r@ == empty_bulk_string_encoding(),
        r.wf(),
{
    let r = BulkString { bytes: bytes_from_static(&EMPTY) };
    proof {
        assert(r@ =~= empty_bulk_string_encoding());
        crate::round_trip::lemma_empty_bulk_string();
    }
    r
}

/// The bulk string that stands for no value. Nothing is allocated for it.
pub fn null_bulk_string() -> (r: BulkString)
    ensures
        r@ == null_bulk_string_encoding(),
        r.wf(),
{
    let r = BulkString { bytes: bytes_from_static(&NULL) };
    proof {
        assert(r@ =~= null_bulk_string_encoding());
        crate::round_trip::lemma_null_values();
    }
    r
}

impl BulkString {
    /// The encoding is one that [`BulkString::while_valid`] accepts whole.
    pub open spec fn wf(&self) -> bool {
        bulk_validate(self@, 0) == Ok::<int, RespError>(self@.len() as int)
    }

    /// Encodes a payload. Without a payload the result is the empty bulk
    /// string. The result is well formed exactly when the payload holds no
    /// line break. The encoding must fit one buffer, which holds no more than
    /// `isize::MAX` bytes.
    pub fn new(input: &[u8]) -> (r: Self)
        requires
            bulk_encoding(input@).len() <= isize::MAX,
        ensures
            r@ == bulk_encoding(input@),
            r.wf() <==> is_line(input@),
    {
        let length = input.len();
        if length == 0 {
            proof {
                assert(bulk_encoding(input@) =~= empty_bulk_string_encoding());
                assert(is_line(input@));
            }
            return empty_bulk_string();
        }
        let length_string = decimal_of(length as u64);
        let mut bytes = bytes_mut_with_capacity(input.len() + length_string.len() + 5);
        bytes_mut_put_u8(&mut bytes, TAG_BULK_STRING);
        bytes_mut_put_slice(&mut bytes, length_string.as_slice());
        bytes_mut_put_u8(&mut bytes, CR);
        bytes_mut_put_u8(&mut bytes, LF);
        bytes_mut_put_slice(&mut bytes, input);
        bytes_mut_put_u8(&mut bytes, CR);
        bytes_mut_put_u8(&mut bytes, LF);
        let r = Self::from_bytes(bytes_mut_freeze(bytes));
        proof {
            assert(r@ =~= bulk_encoding(input@));
            crate::round_trip::lemma_bulk_round_trip(input@);
        }
        r
    }

    /// Whether this is the bulk string without a payload.
    pub fn is_empty(&self) -> (r: bool)
        ensures
            r == (self@ == empty_bulk_string_encoding()),
    {
        let empty = empty_bulk_string();
        bytes_eq(&self.bytes, &empty.bytes)
    }

    /// Whether this is the bulk string that stands for no value.
    pub fn is_null(&self) -> (r: bool)
        ensures
            r == (self@ == null_bulk_string_encoding()),
    {
        let null = null_bulk_string();
        bytes_eq(&self.bytes, &null.bytes)
    }

    /// A handle on the encoding.
    pub fn bytes(&self) -> (r: Bytes)
        ensures
            bytes_view(r) == self@,
    {
        bytes_clone(&self.bytes)
    }

    /// The length of the encoding.
    pub fn len(&self) -> (r: usize)
        ensures
            r == self@.len(),
    {
        bytes_len(&self.bytes)
    }

    /// Adopts a buffer as an encoding, as it is.
    pub fn from_bytes(input: Bytes) -> (r: Self)
        ensures
            r@ == bytes_view(input),
    {
        BulkString { bytes: input }
    }

    /// Copies a slice as an encoding, as it is.
    pub fn from_slice(input: &[u8]) -> (r: Self)
        ensures
            r@ == input@,
    {
        let bytes = bytes_copy_from_slice(input);
        Self::from_bytes(bytes)
    }

    /// Takes a vector over as an encoding, as it is.
    pub fn from_raw(input: Vec<u8>) -> (r: Self)
        ensures
            r@ == input@,
    {
        let bytes = bytes_from_vec(input);
        Self::from_bytes(bytes)
    }

    /// Validates the bulk string that starts at `start`, reading below `end`,
    /// and moves `start` past it. On an error `start` stays.
    pub fn while_valid(input: &[u8], start: &mut usize, end: &usize) -> (r: Result<(), RespError>)
        ensures
            match r {
                Ok(_) => bulk_validate(window(input@, *end as int), *old(start) as int) == Ok::<
                    int,
                    RespError,
                >(*final(start) as int),
                Err(e) => bulk_validate(window(input@, *end as int), *old(start) as int) == Err::<
                    int,
                    RespError,
                >(e) && *final(start) == *old(start),
            },
    {
        let limit = limit_of(input, *end);
        match validate_bulk(input, *start, limit) {
            Ok(next) => {
                *start = next;
                Ok(())
            },
            Err(e) => Err(e),
        }
    }

    /// Decodes the bulk string that starts at `start`, reading below `end`: a
    /// copy of its bytes, with `start` moved past it. On an error `start`
    /// stays.
    pub fn parse(input: &[u8], start: &mut usize, end: &usize) -> (r: Result<Self, RespError>)
        ensures
            match r {
                Ok(value) => {
                    &&& bulk_validate(window(input@, *end as int), *old(start) as int) == Ok::<
                        int,
                        RespError,
                    >(*final(start) as int)
                    &&& *old(start) < *final(start) <= input@.len()
                    &&& value@ == input@.subrange(*old(start) as int, *final(start) as int)
                    &&& value.wf()
                },
                Err(e) => bulk_validate(window(input@, *end as int), *old(start) as int) == Err::<
                    int,
                    RespError,
                >(e) && *final(start) == *old(start),
            },
    {
        let limit = limit_of(input, *end);
        match validate_bulk(input, *start, limit) {
            Ok(next) => {
                let value = Self::from_slice(&input[*start..next]);
                proof {
                    let w = input@.subrange(0, limit as int);
                    assert(w.subrange(*start as int, next as int) =~= value@.subrange(
                        0,
                        value@.len() as int,
                    ));
                    crate::laws::lemma_bulk_frame(w, *start as int, value@, 0, next - *start);
                }
                *start = next;
                Ok(value)
            },
            Err(e) => Err(e),
        }
    }
}

} // verus!
