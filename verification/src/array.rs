//! Arrays: `*`, the number of elements, a line ending and the elements, each
//! a value of any kind; or the null marker in place of all that follows the
//! tag. And the builder that puts an array together from its elements.

use crate::{RespError, RespType};
use crate::buffer::{
    bytes_clone, bytes_copy_from_slice, bytes_copy_to_slice, bytes_eq, bytes_from_static,
    bytes_from_vec, bytes_len, bytes_mut_freeze, bytes_mut_put, bytes_mut_put_slice,
    bytes_mut_put_u8, bytes_mut_view, bytes_mut_with_capacity, bytes_view,
};
use crate::encoding::{array_encoding, decimal_of, empty_array_encoding, null_array_encoding};
use crate::grammar::{array_validate, window, CR, LF, ONE, TAG_ARRAY, TAG_ERROR, ZERO};
use crate::laws::lemma_array_frame;
use crate::round_trip::{
    array_elements, is_value, lemma_array_elements_of_encoding, lemma_array_round_trip,
    lemma_empty_array, lemma_kinds_are_values, lemma_null_values,
};
use crate::scan::{limit_of, validate_array};
use bytes::Bytes;
use vstd::prelude::*;

verus! {

/// An array, held as its encoding: the elements are part of it, and are
/// read again from it where they are wanted.
#[derive(Debug)]
pub struct Array {
    bytes: Bytes,
}

impl View for Array {
    type V = Seq<u8>;

    /// The bytes of the encoding.
    closed spec fn view(&self) -> Seq<u8> {
        bytes_view(self.bytes)
    }
}

impl Clone for Array {
    /// A second handle on the same encoding.
    fn clone(&self) -> (r: Self)
        ensures
            r@ == self@,
    {
        Array { bytes: bytes_clone(&self.bytes) }
    }
}

impl PartialEq for Array {
    /// Two arrays are equal when their encodings are.
    fn eq(&self, other: &Self) -> (r: bool) {
        bytes_eq(&self.bytes, &other.bytes)
    }
}

impl vstd::std_specs::cmp::PartialEqSpecImpl for Array {
    open spec fn obeys_eq_spec() -> bool {
        true
    }

    open spec fn eq_spec(&self, other: &Self) -> bool {
        self@ == other@
    }
}

const EMPTY: [u8; 4] = [TAG_ARRAY, ZERO, CR, LF];

const NULL: [u8; 5] = [TAG_ARRAY, TAG_ERROR, ONE, CR, LF];

/// The array without elements. Nothing is allocated for it.
pub fn empty_array() -> (r: Array)
    ensures
        r@ == empty_array_encoding(),
        r.wf(),
{
    let r = Array { bytes: bytes_from_static(&EMPTY) };
    proof {
        assert(r@ =~= empty_array_encoding());
        lemma_empty_array();
    }
    r
}

/// The array that stands for no value. Nothing is allocated for it.
pub fn null_array() -> (r: Array)
    ensures
        r@ == null_array_encoding(),
        r.wf(),
{
    let r = Array { bytes: bytes_from_static(&NULL) };
    proof {
        assert(r@ =~= null_array_encoding());
        lemma_null_values();
    }
    r
}

impl Array {
    /// The encoding is one that [`Array::while_valid`] accepts whole.
    pub open spec fn wf(&self) -> bool {
        array_validate(self@, 0) == Ok::<int, RespError>(self@.len() as int)
    }

    /// A copy of the encoding without its last three bytes.
    pub fn to_vec(&self) -> (r: Vec<u8>)
        requires
            self@.len() >= 3,
        ensures
            r@ == self@.subrange(0, self@.len() - 3),
    {
        let length = self.len();
        let mut bytes = self.bytes();
        let mut vector: Vec<u8> = vec![0u8; length - 3];
        bytes_copy_to_slice(&mut bytes, &mut vector);
        vector
    }

    /// Whether this is the array without elements.
    pub fn is_empty(&self) -> (r: bool)
        ensures
            r == (self@ == empty_array_encoding()),
    {
        let empty = empty_array();
        bytes_eq(&self.bytes, &empty.bytes)
    }

    /// Whether this is the array that stands for no value.
    pub fn is_null(&self) -> (r: bool)
        ensures
            r == (self@ == null_array_encoding()),
    {
        let null = null_array();
        bytes_eq(&self.bytes, &null.bytes)
    }

    /// A handle on the encoding.
    pub fn bytes(&self) -> (r: Bytes)
        ensures
            bytes_view(r) == self@,
    {
        bytes_clone(&self.bytes)
    }

    /// The length of the encoding.
    pub fn len(&self) -> (r: usize)
        ensures
            r == self@.len(),
    {
        bytes_len(&self.bytes)
    }

    /// Adopts a buffer as an encoding, as it is.
    pub fn from_bytes(input: Bytes) -> (r: Self)
        ensures
            r@ == bytes_view(input),
    {
        Array { bytes: input }
    }

    /// Copies a slice as an encoding, as it is.
    pub fn from_slice(input: &[u8]) -> (r: Self)
        ensures
            r@ == input@,
    {
        let bytes = bytes_copy_from_slice(input);
        Self::from_bytes(bytes)
    }

    /// Takes a vector over as an encoding, as it is.
    pub fn from_raw(input: Vec<u8>) -> (r: Self)
        ensures
            r@ == input@,
    {
        let bytes = bytes_from_vec(input);
        Self::from_bytes(bytes)
    }

    /// Validates the array that starts at `start`, reading below `end`,
    /// and moves `start` past it. On an error `start` stays.
    pub fn while_valid(input: &[u8], start: &mut usize, end: &usize) -> (r: Result<(), RespError>)
        ensures
            match r {
                Ok(_) => array_validate(window(input@, *end as int), *old(start) as int) == Ok::<
                    int,
                    RespError,
                >(*final(start) as int),
                Err(e) => array_validate(window(input@, *end as int), *old(start) as int) == Err::<
                    int,
                    RespError,
                >(e) && *final(start) == *old(start),
            },
    {
        let limit = limit_of(input, *end);
        match validate_array(input, *start, limit) {
            Ok(next) => {
                *start = next;
                Ok(())
            },
            Err(e) => Err(e),
        }
    }

    /// Decodes the array that starts at `start`, reading below `end`: a
    /// copy of its bytes, with `start` moved past it. On an error `start`
    /// stays.
    pub fn parse(input: &[u8], start: &mut usize, end: &usize) -> (r: Result<Self, RespError>)
        ensures
            match r {
                Ok(value) => {
                    &&& array_validate(window(input@, *end as int), *old(start) as int) == Ok::<
                        int,
                        RespError,
                    >(*final(start) as int)
                    &&& *old(start) < *final(start) <= input@.len()
                    &&& value@ == input@.subrange(*old(start) as int, *final(start) as int)
                    &&& value.wf()
                },
                Err(e) => array_validate(window(input@, *end as int), *old(start) as int) == Err::<
                    int,
                    RespError,
                >(e) && *final(start) == *old(start),
            },
    {
        let limit = limit_of(input, *end);
        match validate_array(input, *start, limit) {
            Ok(next) => {
                let value = Self::from_slice(&input[*start..next]);
                proof {
                    let w = input@.subrange(0, limit as int);
                    assert(w.subrange(*start as int, next as int) =~= value@.subrange(
                        0,
                        value@.len() as int,
                    ));
                    lemma_array_frame(w, *start as int, value@, 0, next - *start);
                }
                *start = next;
                Ok(value)
            },
            Err(e) => Err(e),
        }
    }
}

/// Puts an array together from its elements, in the order in which they
/// come.
pub struct ArrayBuilder {
    inner: Vec<RespType>,
}

impl View for ArrayBuilder {
    type V = Seq<RespType>;

    /// The elements so far, first to last.
    closed spec fn view(&self) -> Seq<RespType> {
        self.inner@
    }
}

/// The first elements of a sequence of encodings take no more bytes than all
/// of them.
pub proof fn lemma_flatten_take_len(parts: Seq<Seq<u8>>, k: int)
    requires
        0 <= k <= parts.len(),
    ensures
        parts.take(k).flatten().len() <= parts.flatten().len(),
    decreases parts.len() - k,
{
    if k < parts.len() {
        lemma_flatten_take_len(parts, k + 1);
        assert(parts.take(k + 1) =~= parts.take(k).push(parts[k]));
        parts.take(k).lemma_flatten_push(parts[k]);
    } else {
        assert(parts.take(k) =~= parts);
    }
}

impl ArrayBuilder {
    /// The encodings of the elements so far, first to last.
    pub open spec fn encodings(&self) -> Seq<Seq<u8>> {
        self@.map_values(|element: RespType| element@)
    }

    /// A builder without elements.
    pub fn new() -> (r: ArrayBuilder)
        ensures
            r@ == Seq::<RespType>::empty(),
    {
        ArrayBuilder { inner: Vec::<RespType>::new() }
    }

    /// A copy of the elements so far. The builder keeps its own.
    pub fn value(&mut self) -> (r: Vec<RespType>)
        ensures
            final(self)@ == old(self)@,
            r@.len() == old(self)@.len(),
            forall|i: int| 0 <= i < r@.len() ==> (#[trigger] r@[i]).is_copy_of(old(self)@[i]),
    {
        let mut copy: Vec<RespType> = Vec::new();
        let mut index: usize = 0;
        while index < self.inner.len()
            invariant
                index <= self.inner@.len(),
                self.inner@ == old(self).inner@,
                copy@.len() == index,
                forall|i: int|
                    0 <= i < copy@.len() ==> (#[trigger] copy@[i]).is_copy_of(self.inner@[i]),
            decreases self.inner@.len() - index,
        {
            copy.push(self.inner[index].clone());
            index += 1;
        }
        copy
    }

    /// Adds an element behind those that are there, and hands the builder
    /// back for the next one.
    pub fn insert(&mut self, value: RespType) -> (r: &mut Self)
        ensures
            r@ == old(self)@.push(value),
            *final(self) == *final(r),
    {
        self.inner.push(value);
        self
    }

    /// The array of the elements so far. Without elements it is the empty
    /// array, for which nothing is allocated. Where every element is well
    /// formed, so is the array, and read again from it the elements are those
    /// that were put in. The encoding must fit one buffer, which holds no
    /// more than `isize::MAX` bytes.
    pub fn build(&self) -> (r: Array)
        requires
            array_encoding(self.encodings()).len() <= isize::MAX,
        ensures
            r@ == array_encoding(self.encodings()),
            (forall|i: int| 0 <= i < self@.len() ==> (#[trigger] self@[i]).wf()) ==> r.wf()
                && array_elements(r@) == self.encodings(),
    {
        let length = self.inner.len();
        let ghost parts = self.encodings();
        proof {
            if forall|i: int| 0 <= i < self@.len() ==> (#[trigger] self@[i]).wf() {
                assert forall|k: int| 0 <= k < parts.len() implies is_value(
                    #[trigger] parts[k],
                ) by {
                    assert(self@[k].wf());
                    lemma_kinds_are_values(parts[k]);
                }
                lemma_array_round_trip(parts);
                lemma_array_elements_of_encoding(parts);
            }
        }
        if length == 0 {
            proof {
                assert(array_encoding(parts) =~= empty_array_encoding());
            }
            return empty_array();
        }
        let length_string = decimal_of(length as u64);
        let mut total_bytes: usize = length_string.len() + 3;
        let mut index: usize = 0;
        while index < length
            invariant
                length == self.inner@.len(),
                parts == self.encodings(),
                index <= length,
                total_bytes == length_string@.len() + 3 + parts.take(index as int).flatten().len(),
                array_encoding(parts).len() <= isize::MAX,
                array_encoding(parts).len() == length_string@.len() + 3 + parts.flatten().len(),
            decreases length - index,
        {
            proof {
                lemma_flatten_take_len(parts, index + 1);
                assert(parts.take(index + 1) =~= parts.take(index as int).push(parts[index as int]));
                parts.take(index as int).lemma_flatten_push(parts[index as int]);
            }
            total_bytes += self.inner[index].len();
            index += 1;
        }
        proof {
            assert(parts.take(length as int) =~= parts);
        }
        let mut bytes = bytes_mut_with_capacity(total_bytes);
        bytes_mut_put_u8(&mut bytes, TAG_ARRAY);
        bytes_mut_put_slice(&mut bytes, length_string.as_slice());
        bytes_mut_put_u8(&mut bytes, CR);
        bytes_mut_put_u8(&mut bytes, LF);
        let ghost header = bytes_mut_view(bytes);
        let mut index: usize = 0;
        while index < length
            invariant
                length == self.inner@.len(),
                parts == self.encodings(),
                index <= length,
                bytes_mut_view(bytes) == header + parts.take(index as int).flatten(),
                header.len() + parts.flatten().len() <= isize::MAX,
            decreases length - index,
        {
            proof {
                lemma_flatten_take_len(parts, index + 1);
                assert(parts.take(index + 1) =~= parts.take(index as int).push(parts[index as int]));
                parts.take(index as int).lemma_flatten_push(parts[index as int]);
            }
            bytes_mut_put(&mut bytes, self.inner[index].bytes());
            index += 1;
        }
        let r = Array { bytes: bytes_mut_freeze(bytes) };
        proof {
            assert(parts.take(length as int) =~= parts);
            assert(r@ =~= array_encoding(parts));
        }
        r
    }
}

} // verus!
