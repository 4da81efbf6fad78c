//! The byte buffers of the `bytes` crate: what they hold, and what the calls
//! that this library makes do to it.

use bytes::{BufMut, Bytes, BytesMut};
use vstd::prelude::*;

verus! {

/// Declares [`bytes::BytesMut`], a buffer that grows.
#[verifier::external_type_specification]
#[verifier::external_body]
pub struct ExBytesMut(BytesMut);

/// Declares [`bytes::Bytes`], a buffer that no longer changes.
#[verifier::external_type_specification]
#[verifier::external_body]
pub struct ExBytes(Bytes);

/// The bytes that a growing buffer holds, first to last.
pub uninterp spec fn buffer_bytes(buffer: BytesMut) -> Seq<u8>;

/// The bytes that a frozen buffer holds, first to last.
pub uninterp spec fn frozen_bytes(buffer: Bytes) -> Seq<u8>;

/// [`BytesMut::new`]: a buffer that holds nothing.
pub assume_specification[ BytesMut::new ]() -> (buffer: BytesMut)
    ensures
        buffer_bytes(buffer) == Seq::<u8>::empty(),
;

/// [`BytesMut::extend_from_slice`]: the slice's bytes go behind what the
/// buffer holds.
pub assume_specification[ BytesMut::extend_from_slice ](buffer: &mut BytesMut, extend: &[u8])
    ensures
        buffer_bytes(*final(buffer)) == buffer_bytes(*old(buffer)) + extend@,
;

/// [`BytesMut::freeze`]: the same bytes, in a buffer that no longer changes.
pub assume_specification[ BytesMut::freeze ](buffer: BytesMut) -> (frozen: Bytes)
    ensures
        frozen_bytes(frozen) == buffer_bytes(buffer),
;

/// `BufMut::put_u8` on a [`BytesMut`]: one byte goes behind what the buffer
/// holds.
#[verifier::external_body]
pub(crate) fn put_u8(buffer: &mut BytesMut, byte: u8)
    ensures
        buffer_bytes(*final(buffer)) == buffer_bytes(*old(buffer)).push(byte),
{
    buffer.put_u8(byte)
}

/// `AsRef<[u8]>` on a [`Bytes`]: the bytes that it holds, as a slice.
#[verifier::external_body]
pub(crate) fn as_slice(buffer: &Bytes) -> (slice: &[u8])
    ensures
        slice@ == frozen_bytes(*buffer),
{
    buffer.as_ref()
}

} // verus!
