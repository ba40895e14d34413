//! The bytes that a connection has received and not yet consumed.

use bytes::BytesMut;
use vstd::prelude::*;

verus! {

/// The growable buffer of `bytes`.
#[verifier::external_type_specification]
#[verifier::external_body]
pub struct ExBytesMut(BytesMut);

/// What a buffer holds.
pub uninterp spec fn buffered(buffer: BytesMut) -> Seq<u8>;

/// `bytes::BytesMut::new`: an empty buffer.
#[verifier::external_body]
pub(crate) fn new_buffer() -> (buffer: BytesMut)
    ensures
        buffered(buffer) == Seq::<u8>::empty(),
{
    BytesMut::new()
}

/// `bytes::BytesMut::len`: the number of bytes in the buffer.
#[verifier::external_body]
pub(crate) fn buffer_len(buffer: &BytesMut) -> (len: usize)
    ensures
        len == buffered(*buffer).len(),
{
    buffer.len()
}

/// `bytes::BytesMut::as_ref`, indexed: the byte at a position.
#[verifier::external_body]
pub(crate) fn byte_at(buffer: &BytesMut, at: usize) -> (byte: u8)
    requires
        at < buffered(*buffer).len(),
    ensures
        byte == buffered(*buffer)[at as int],
{
    buffer.as_ref()[at]
}

/// `bytes::BytesMut::extend_from_slice`: the bytes go to the end.
#[verifier::external_body]
pub(crate) fn append(buffer: &mut BytesMut, bytes: &Vec<u8>)
    ensures
        buffered(*final(buffer)) == buffered(*old(buffer)) + bytes@,
{
    buffer.extend_from_slice(bytes)
}

/// `bytes::BytesMut::split_to`: the front of the buffer is cut off and handed out.
#[verifier::external_body]
pub(crate) fn split_front(buffer: &mut BytesMut, len: usize) -> (front: Vec<u8>)
    requires
        len <= buffered(*old(buffer)).len(),
    ensures
        front@ == buffered(*old(buffer)).take(len as int),
        buffered(*final(buffer)) == buffered(*old(buffer)).skip(len as int),
{
    buffer.split_to(len).to_vec()
}

} // verus!
