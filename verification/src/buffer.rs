//! Response buffers. The engine fills a growable byte buffer and freezes it
//! into the immutable byte string that is handed to the transport. Both
//! types come from the `bytes` crate; Verus takes what is said of them here
//! on trust.

use vstd::prelude::*;
use bytes::{BufMut, Bytes, BytesMut};

verus! {

/// The growable buffer of the `bytes` crate.
#[verifier::external_type_specification]
#[verifier::external_body]
pub struct ExBytesMut(bytes::BytesMut);

/// The immutable byte string of the `bytes` crate.
#[verifier::external_type_specification]
#[verifier::external_body]
pub struct ExBytes(bytes::Bytes);

/// The bytes that a buffer holds, from its first to its last.
pub uninterp spec fn buffer_contents(buf: BytesMut) -> Seq<u8>;

/// The bytes that a byte string holds, from its first to its last.
pub uninterp spec fn bytes_contents(bytes: Bytes) -> Seq<u8>;

/// `BytesMut::with_capacity`: a buffer that holds no bytes yet. The capacity
/// is a hint for the allocation and no limit: the buffer grows as needed.
/// As with a `Vec`, what the allocator cannot give is not spoken of here.
#[verifier::external_body]
pub(crate) fn buffer_with_capacity(capacity: usize) -> (buf: BytesMut)
    ensures
        buffer_contents(buf) == Seq::<u8>::empty(),
{
    BytesMut::with_capacity(capacity)
}

/// `BufMut::put_u8` on a `BytesMut`: appends one byte.
#[verifier::external_body]
pub(crate) fn put_byte(buf: &mut BytesMut, byte: u8)
    ensures
        buffer_contents(*final(buf)) == buffer_contents(*old(buf)).push(byte),
{
    buf.put_u8(byte)
}

/// `BufMut::put_slice` on a `BytesMut`: appends the bytes of the slice, in
/// order.
#[verifier::external_body]
pub(crate) fn put_bytes(buf: &mut BytesMut, data: &[u8])
    ensures
        buffer_contents(*final(buf)) == buffer_contents(*old(buf)) + data@,
{
    buf.put_slice(data)
}

/// `BytesMut::freeze`: the immutable byte string with the bytes that the
/// buffer held.
#[verifier::external_body]
pub(crate) fn freeze(buf: BytesMut) -> (bytes: Bytes)
    ensures
        bytes_contents(bytes) == buffer_contents(buf),
{
    buf.freeze()
}

} // verus!
