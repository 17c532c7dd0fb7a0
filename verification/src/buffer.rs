//! Byte buffers of the `bytes` crate.

use bytes::BytesMut;
use vstd::prelude::*;

verus! {

/// A growable buffer of bytes: `bytes::BytesMut`.
#[verifier::external_type_specification]
#[verifier::external_body]
pub struct ExBytesMut(bytes::BytesMut);

/// The bytes that a buffer holds.
pub uninterp spec fn contents(buf: BytesMut) -> Seq<u8>;

/// Calls `BytesMut::with_capacity`, which gives an empty buffer. It panics for a capacity that no
/// allocation can have.
#[verifier::external_body]
pub(crate) fn buffer_with_capacity(capacity: usize) -> (buf: BytesMut)
    requires
        capacity <= isize::MAX,
    ensures
        contents(buf) == Seq::<u8>::empty(),
{
    BytesMut::with_capacity(capacity)
}

/// Calls `BytesMut::new`, which gives an empty buffer.
#[verifier::external_body]
pub(crate) fn empty_buffer() -> (buf: BytesMut)
    ensures
        contents(buf) == Seq::<u8>::empty(),
{
    BytesMut::new()
}

/// Calls `BytesMut::len`, which counts the bytes that the buffer holds.
#[verifier::external_body]
pub(crate) fn buffer_len(buf: &BytesMut) -> (len: usize)
    ensures
        len == contents(*buf).len(),
{
    buf.len()
}

/// Calls `BytesMut::as_ref`, which shows the bytes that the buffer holds.
#[verifier::external_body]
pub(crate) fn buffer_bytes(buf: &BytesMut) -> (bytes: &[u8])
    ensures
        bytes@ == contents(*buf),
{
    buf.as_ref()
}

/// Calls `BytesMut::extend_from_slice`, which appends bytes and makes room for them where there is
/// none. It panics for a length that no allocation can have.
#[verifier::external_body]
pub(crate) fn append(buf: &mut BytesMut, bytes: &[u8])
    requires
        contents(*old(buf)).len() + bytes@.len() <= isize::MAX,
    ensures
        contents(*final(buf)) == contents(*old(buf)) + bytes@,
{
    buf.extend_from_slice(bytes)
}

/// `BytesMut::clone` gives a buffer with the same bytes.
pub assume_specification[ <bytes::BytesMut as Clone>::clone ](buf: &bytes::BytesMut) -> (copy:
    bytes::BytesMut)
    ensures
        contents(copy) == contents(*buf),
;

}
