//! The byte storage behind every value: `bytes::Bytes` and `bytes::BytesMut`.
//!
//! Both types are opaque to the verifier. What a buffer holds is named by
//! [`bytes_view`] and [`bytes_mut_view`]; each function below states, over
//! those two names, what one method of the `bytes` crate does. None of these
//! statements is proved: they are read off the crate's source.

use bytes::{Buf, BufMut, Bytes, BytesMut};
use vstd::prelude::*;

verus! {

/// `bytes::Bytes`, an immutable, cheaply clonable byte buffer.
#[verifier::external_type_specification]
#[verifier::external_body]
pub struct ExBytes(bytes::Bytes);

/// `bytes::BytesMut`, a growable byte buffer.
#[verifier::external_type_specification]
#[verifier::external_body]
pub struct ExBytesMut(bytes::BytesMut);

/// The bytes that a `Bytes` holds, first to last.
pub uninterp spec fn bytes_view(b: Bytes) -> Seq<u8>;

/// The bytes written so far into a `BytesMut`, first to last.
pub uninterp spec fn bytes_mut_view(b: BytesMut) -> Seq<u8>;

/// `Bytes::from_static`: a buffer that points at the given static slice and
/// holds exactly its bytes. Nothing is allocated or copied.
#[verifier::external_body]
pub(crate) fn bytes_from_static(data: &'static [u8]) -> (r: Bytes)
    ensures
        bytes_view(r) == data@,
{
    Bytes::from_static(data)
}

/// `Bytes::copy_from_slice`: a fresh buffer holding a copy of the slice.
#[verifier::external_body]
pub(crate) fn bytes_copy_from_slice(data: &[u8]) -> (r: Bytes)
    ensures
        bytes_view(r) == data@,
{
    Bytes::copy_from_slice(data)
}

/// `<Bytes as From<Vec<u8>>>::from`: the buffer takes the vector over and
/// holds exactly its elements.
#[verifier::external_body]
pub(crate) fn bytes_from_vec(data: Vec<u8>) -> (r: Bytes)
    ensures
        bytes_view(r) == data@,
{
    Bytes::from(data)
}

/// `Bytes::len`: the number of bytes held.
#[verifier::external_body]
pub(crate) fn bytes_len(b: &Bytes) -> (r: usize)
    ensures
        r == bytes_view(*b).len(),
{
    b.len()
}

/// `<Bytes as Clone>::clone`: a second handle on the same bytes.
#[verifier::external_body]
pub(crate) fn bytes_clone(b: &Bytes) -> (r: Bytes)
    ensures
        bytes_view(r) == bytes_view(*b),
{
    b.clone()
}

/// `<Bytes as PartialEq>::eq`: two buffers are equal when they hold the same
/// bytes.
#[verifier::external_body]
pub(crate) fn bytes_eq(a: &Bytes, b: &Bytes) -> (r: bool)
    ensures
        r == (bytes_view(*a) == bytes_view(*b)),
{
    a == b
}

/// `Bytes::slice` on the half-open range `begin..end`: a handle on that part
/// of the buffer. The method panics unless `begin <= end <= len`.
#[verifier::external_body]
pub(crate) fn bytes_slice(b: &Bytes, begin: usize, end: usize) -> (r: Bytes)
    requires
        begin <= end <= bytes_view(*b).len(),
    ensures
        bytes_view(r) == bytes_view(*b).subrange(begin as int, end as int),
{
    b.slice(begin..end)
}

/// `<Bytes as Buf>::copy_to_slice`: fills the whole of `dst` with the first
/// bytes of the buffer and advances the buffer past them. The method panics
/// when the buffer holds fewer bytes than `dst` has room for.
#[verifier::external_body]
pub(crate) fn bytes_copy_to_slice(b: &mut Bytes, dst: &mut Vec<u8>)
    requires
        old(dst)@.len() <= bytes_view(*old(b)).len(),
    ensures
        final(dst)@ == bytes_view(*old(b)).subrange(0, old(dst)@.len() as int),
        bytes_view(*final(b)) == bytes_view(*old(b)).subrange(
            old(dst)@.len() as int,
            bytes_view(*old(b)).len() as int,
        ),
{
    b.copy_to_slice(dst.as_mut_slice())
}

/// `BytesMut::with_capacity`: an empty buffer. The capacity is handed to
/// `Vec::with_capacity`, which panics above `isize::MAX` bytes.
#[verifier::external_body]
pub(crate) fn bytes_mut_with_capacity(capacity: usize) -> (r: BytesMut)
    requires
        capacity <= isize::MAX,
    ensures
        bytes_mut_view(r) == Seq::<u8>::empty(),
{
    BytesMut::with_capacity(capacity)
}

/// `<BytesMut as BufMut>::put_u8`: appends one byte. The buffer grows as it
/// must, and panics where it would pass `isize::MAX` bytes.
#[verifier::external_body]
pub(crate) fn bytes_mut_put_u8(b: &mut BytesMut, byte: u8)
    requires
        bytes_mut_view(*old(b)).len() + 1 <= isize::MAX,
    ensures
        bytes_mut_view(*final(b)) == bytes_mut_view(*old(b)).push(byte),
{
    b.put_u8(byte)
}

/// `<BytesMut as BufMut>::put_slice`: appends the bytes of the slice in order.
/// The buffer grows as it must, and panics where it would pass `isize::MAX`
/// bytes.
#[verifier::external_body]
pub(crate) fn bytes_mut_put_slice(b: &mut BytesMut, src: &[u8])
    requires
        bytes_mut_view(*old(b)).len() + src@.len() <= isize::MAX,
    ensures
        bytes_mut_view(*final(b)) == bytes_mut_view(*old(b)) + src@,
{
    b.put_slice(src)
}

/// `<BytesMut as BufMut>::put` with a `Bytes` as its source: appends all the
/// bytes that the source holds, in order. The buffer grows as it must, and
/// panics where it would pass `isize::MAX` bytes.
#[verifier::external_body]
pub(crate) fn bytes_mut_put(b: &mut BytesMut, src: Bytes)
    requires
        bytes_mut_view(*old(b)).len() + bytes_view(src).len() <= isize::MAX,
    ensures
        bytes_mut_view(*final(b)) == bytes_mut_view(*old(b)) + bytes_view(src),
{
    b.put(src)
}

/// `BytesMut::freeze`: turns the buffer into an immutable one that holds the
/// same bytes.
#[verifier::external_body]
pub(crate) fn bytes_mut_freeze(b: BytesMut) -> (r: Bytes)
    ensures
        bytes_view(r) == bytes_mut_view(b),
{
    b.freeze()
}

} // verus!
