//! The growable byte buffer (`bytes::BytesMut`) that holds bytes read from a
//! connection and bytes rendered for it.
//!
//! The buffer type belongs to the `bytes` crate. Its behaviour is not proved
//! here: each function below states what the crate's method does to the
//! buffer's contents, and the rest of the library is proved against that.

use vstd::prelude::*;
use bytes::BytesMut;
use bytes::Buf;
use bytes::BufMut;

verus! {

#[verifier::external_type_specification]
#[verifier::external_body]
pub struct ExBytesMut(bytes::BytesMut);

/// The bytes that a buffer holds, first to last.
pub uninterp spec fn contents(buf: BytesMut) -> Seq<u8>;

/// The largest size of any single allocation.
pub open spec fn max_len() -> int {
    isize::MAX as int
}

/// `BytesMut::with_capacity`: a new buffer that holds no bytes. The request is
/// kept within the allocation limit, above which the call panics.
#[verifier::external_body]
pub(crate) fn with_capacity(capacity: usize) -> (buf: BytesMut)
    requires
        capacity <= max_len(),
    ensures
        contents(buf) == Seq::<u8>::empty(),
{
    BytesMut::with_capacity(capacity)
}

/// `BytesMut::len`: the number of bytes held.
#[verifier::external_body]
pub(crate) fn len(buf: &BytesMut) -> (n: usize)
    ensures
        n == contents(*buf).len(),
{
    buf.len()
}

/// `BufMut::put_slice` on a `BytesMut`: appends `src`, growing the buffer as
/// needed. The total is kept within the allocation limit, above which the
/// call panics.
#[verifier::external_body]
pub(crate) fn put_slice(buf: &mut BytesMut, src: &[u8])
    requires
        contents(*old(buf)).len() + src@.len() <= max_len(),
    ensures
        contents(*final(buf)) == contents(*old(buf)) + src@,
{
    buf.put_slice(src)
}

/// `Buf::advance` on a `BytesMut`: drops the first `count` bytes and keeps the
/// rest. It panics when `count` exceeds the length.
#[verifier::external_body]
pub(crate) fn advance(buf: &mut BytesMut, count: usize)
    requires
        count <= contents(*old(buf)).len(),
    ensures
        contents(*final(buf)) == contents(*old(buf)).skip(count as int),
{
    buf.advance(count)
}

/// `BytesMut::as_ref`: the held bytes as a slice.
#[verifier::external_body]
pub(crate) fn as_slice(buf: &BytesMut) -> (bytes: &[u8])
    ensures
        bytes@ == contents(*buf),
{
    buf.as_ref()
}

} // verus!
