//! Byte buffers of the `bytes` crate: what they hold, and the calls this crate
//! makes on them.
use bytes::{Buf, BufMut, Bytes, BytesMut};
use vstd::prelude::*;

verus! {

#[verifier::external_type_specification]
#[verifier::external_body]
pub struct ExBytes(bytes::Bytes);

#[verifier::external_type_specification]
#[verifier::external_body]
pub struct ExBytesMut(bytes::BytesMut);

/// The bytes that a `bytes::Bytes` holds.
pub uninterp spec fn octets(b: Bytes) -> Seq<u8>;

/// The bytes that a `bytes::BytesMut` holds, the consumed ones not counted.
pub uninterp spec fn held(b: BytesMut) -> Seq<u8>;

/// `Bytes::clone`: another handle on the same bytes.
pub assume_specification[ <Bytes as Clone>::clone ](b: &Bytes) -> (r: Bytes)
    ensures
        octets(r) == octets(*b),
;

/// `Bytes::len`: how many bytes it holds.
#[verifier::external_body]
pub(crate) fn octets_len(b: &Bytes) -> (r: usize)
    ensures
        r == octets(*b).len(),
{
    b.len()
}

/// `Bytes` read as a slice, through its `AsRef<[u8]>`.
#[verifier::external_body]
pub(crate) fn octets_slice(b: &Bytes) -> (r: &[u8])
    ensures
        r@ == octets(*b),
{
    b.as_ref()
}

/// `Bytes::new`: a value that holds no bytes.
#[verifier::external_body]
pub(crate) fn octets_none() -> (r: Bytes)
    ensures
        octets(r).len() == 0,
{
    Bytes::new()
}

/// `Bytes::slice` over a range: another handle on that part of the bytes. It
/// panics where the range is not within them.
#[verifier::external_body]
pub(crate) fn octets_part(b: &Bytes, from: usize, to: usize) -> (r: Bytes)
    requires
        from <= to <= octets(*b).len(),
    ensures
        octets(r) == octets(*b).subrange(from as int, to as int),
{
    b.slice(from..to)
}

/// `Bytes::copy_from_slice`: a value of its own that holds the same bytes.
#[verifier::external_body]
pub(crate) fn octets_copied(data: &[u8]) -> (r: Bytes)
    ensures
        octets(r) == data@,
{
    Bytes::copy_from_slice(data)
}

/// `BytesMut::len`: how many bytes it holds.
#[verifier::external_body]
pub(crate) fn held_len(b: &BytesMut) -> (r: usize)
    ensures
        r == held(*b).len(),
{
    b.len()
}

/// `BytesMut` read as a slice, through its `AsRef<[u8]>`.
#[verifier::external_body]
pub(crate) fn held_slice(b: &BytesMut) -> (r: &[u8])
    ensures
        r@ == held(*b),
{
    b.as_ref()
}

/// `BytesMut::reserve`: makes room and leaves the bytes as they are. It
/// panics where the room asked for overflows what can be allocated, so that
/// is asked not to happen.
#[verifier::external_body]
pub(crate) fn reserve(b: &mut BytesMut, additional: usize)
    requires
        held(*old(b)).len() + additional <= isize::MAX,
    ensures
        held(*final(b)) == held(*old(b)),
{
    b.reserve(additional)
}

/// `Buf::advance` on a `BytesMut`: drops the first `count` bytes. It panics
/// where there are fewer.
#[verifier::external_body]
pub(crate) fn advance(b: &mut BytesMut, count: usize)
    requires
        count <= held(*old(b)).len(),
    ensures
        held(*final(b)) == held(*old(b)).skip(count as int),
{
    b.advance(count)
}

/// `BytesMut::split_to`: takes the first `at` bytes out of the buffer. It
/// panics where there are fewer.
#[verifier::external_body]
pub(crate) fn split_to(b: &mut BytesMut, at: usize) -> (r: BytesMut)
    requires
        at <= held(*old(b)).len(),
    ensures
        held(r) == held(*old(b)).take(at as int),
        held(*final(b)) == held(*old(b)).skip(at as int),
{
    b.split_to(at)
}

/// `BytesMut::freeze`: the same bytes, immutable from then on.
#[verifier::external_body]
pub(crate) fn freeze(b: BytesMut) -> (r: Bytes)
    ensures
        octets(r) == held(b),
{
    b.freeze()
}

/// `BufMut::put_slice` on a `BytesMut`: writes the bytes behind those it
/// holds. It panics where the buffer would outgrow what can be allocated.
#[verifier::external_body]
pub(crate) fn put_slice(b: &mut BytesMut, data: &[u8])
    requires
        held(*old(b)).len() + data@.len() <= isize::MAX,
    ensures
        held(*final(b)) == held(*old(b)) + data@,
{
    b.put_slice(data)
}

} // verus!
