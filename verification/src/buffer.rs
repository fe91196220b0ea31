//! Byte buffers of the `bytes` crate as the verified code sees them: a
//! `BytesMut` or `Bytes` is known by the sequence of bytes it holds.
use vstd::prelude::*;
use bytes::{Buf, Bytes, BytesMut};

verus! {

#[verifier::external_type_specification]
#[verifier::external_body]
pub struct ExBytesMut(BytesMut);

#[verifier::external_type_specification]
#[verifier::external_body]
pub struct ExBytes(Bytes);

/// The bytes a `BytesMut` holds, in order.
pub uninterp spec fn bytes_mut_contents(b: BytesMut) -> Seq<u8>;

/// The bytes a `Bytes` holds, in order.
pub uninterp spec fn bytes_contents(b: Bytes) -> Seq<u8>;

/// `BytesMut::as_ref`: the slice of all bytes held.
#[verifier::external_body]
pub(crate) fn buf_as_slice(b: &BytesMut) -> (s: &[u8])
    ensures
        s@ == bytes_mut_contents(*b),
{
    b.as_ref()
}

/// `BytesMut::len`: the number of bytes held.
#[verifier::external_body]
pub(crate) fn buf_len(b: &BytesMut) -> (n: usize)
    ensures
        n == bytes_mut_contents(*b).len(),
{
    b.len()
}

/// `<BytesMut as Buf>::advance`: drops the first `n` bytes (panics past the end).
#[verifier::external_body]
pub(crate) fn buf_advance(b: &mut BytesMut, n: usize)
    requires
        n <= bytes_mut_contents(*old(b)).len(),
    ensures
        bytes_mut_contents(*final(b)) == bytes_mut_contents(*old(b)).skip(n as int),
{
    b.advance(n)
}

/// `BytesMut::split_to`: returns the first `at` bytes and keeps the rest
/// (panics when `at` exceeds the length).
#[verifier::external_body]
pub(crate) fn buf_split_to(b: &mut BytesMut, at: usize) -> (head: BytesMut)
    requires
        at <= bytes_mut_contents(*old(b)).len(),
    ensures
        bytes_mut_contents(head) == bytes_mut_contents(*old(b)).take(at as int),
        bytes_mut_contents(*final(b)) == bytes_mut_contents(*old(b)).skip(at as int),
{
    b.split_to(at)
}

/// Index assignment through `<BytesMut as DerefMut>`: replaces byte `i`.
#[verifier::external_body]
pub(crate) fn buf_set_byte(b: &mut BytesMut, i: usize, v: u8)
    requires
        i < bytes_mut_contents(*old(b)).len(),
    ensures
        bytes_mut_contents(*final(b)) == bytes_mut_contents(*old(b)).update(i as int, v),
{
    b[i] = v;
}

/// `<BytesMut as From<&[u8]>>::from`: a buffer holding a copy of `s`.
#[verifier::external_body]
pub(crate) fn buf_from_slice(s: &[u8]) -> (b: BytesMut)
    ensures
        bytes_mut_contents(b) == s@,
{
    BytesMut::from(s)
}

/// `BytesMut::freeze`: the same bytes, made immutable.
#[verifier::external_body]
pub(crate) fn buf_freeze(b: BytesMut) -> (r: Bytes)
    ensures
        bytes_contents(r) == bytes_mut_contents(b),
{
    b.freeze()
}

/// `Bytes::as_ref`: the slice of all bytes held.
#[verifier::external_body]
pub(crate) fn bytes_as_slice(b: &Bytes) -> (s: &[u8])
    ensures
        s@ == bytes_contents(*b),
{
    b.as_ref()
}

} // verus!
