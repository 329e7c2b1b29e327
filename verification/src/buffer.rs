//! The shared byte buffers of the `bytes` crate.
use bytes::Buf;
use bytes::{Bytes, BytesMut};
use vstd::prelude::*;

verus! {

/// A cheaply cloned view of bytes in memory.
#[verifier::external_type_specification]
#[verifier::external_body]
pub struct ExBytes(bytes::Bytes);

/// A growing buffer.
#[verifier::external_type_specification]
#[verifier::external_body]
pub struct ExBytesMut(bytes::BytesMut);

/// The bytes that a shared buffer shows.
pub uninterp spec fn bytes_content(b: bytes::Bytes) -> Seq<u8>;

/// The bytes that a growing buffer holds.
pub uninterp spec fn bytes_mut_content(b: bytes::BytesMut) -> Seq<u8>;

/// `Bytes::from` of a vector shows the bytes of the vector.
#[verifier::external_body]
pub(crate) fn bytes_from(v: Vec<u8>) -> (b: Bytes)
    ensures
        bytes_content(b) == v@,
{
    Bytes::from(v)
}

/// `Deref` of `Bytes` gives the bytes that it shows.
#[verifier::external_body]
pub(crate) fn bytes_slice(b: &Bytes) -> (s: &[u8])
    ensures
        s@ == bytes_content(*b),
{
    b
}

/// `Clone` of `Bytes` shows the same bytes.
pub assume_specification[ <bytes::Bytes as Clone>::clone ](b: &bytes::Bytes) -> (r: bytes::Bytes)
    ensures
        bytes_content(r) == bytes_content(*b),
;

/// `Buf::advance` of `Bytes` drops the first bytes. It panics where there are fewer.
#[verifier::external_body]
pub(crate) fn bytes_advance(b: &mut Bytes, count: usize)
    requires
        count <= bytes_content(*old(b)).len(),
    ensures
        bytes_content(*final(b)) == bytes_content(*old(b)).skip(count as int),
{
    b.advance(count)
}

/// `Bytes::split_to` hands out the first bytes and keeps the others. It panics where there are
/// fewer.
pub assume_specification[ bytes::Bytes::split_to ](b: &mut bytes::Bytes, at: usize) -> (r:
    bytes::Bytes)
    requires
        at <= bytes_content(*old(b)).len(),
    ensures
        bytes_content(r) == bytes_content(*old(b)).take(at as int),
        bytes_content(*final(b)) == bytes_content(*old(b)).skip(at as int),
;

/// `BytesMut::extend_from_slice` appends bytes.
pub assume_specification[ bytes::BytesMut::extend_from_slice ](
    b: &mut bytes::BytesMut,
    extend: &[u8],
)
    ensures
        bytes_mut_content(*final(b)) == bytes_mut_content(*old(b)) + extend@,
;

} // verus!
