//! The byte buffers of the `bytes` crate, as the codecs use them.
//!
//! [`BytesMut`] and [`Bytes`] are opaque to the verifier. Each is modelled by
//! the sequence of bytes it holds, and the methods below are the ones whose
//! effect on that sequence the rest of the crate relies on. Capacity, sharing
//! and addresses are not modelled. The rest of the crate can say by which of
//! these methods a piece was cut from which buffer; that truncating, splitting
//! and freezing copy nothing is then the documentation of `bytes` alone. It is
//! left unsaid that room which was split off from the front of a buffer counts
//! against the size of its allocation until it is reclaimed.
use tokio_util::bytes::{Bytes, BytesMut};
use vstd::prelude::*;

verus! {

#[verifier::external_type_specification]
#[verifier::external_body]
pub struct ExBytesMut(BytesMut);

#[verifier::external_type_specification]
#[verifier::external_body]
pub struct ExBytes(Bytes);

/// The bytes that a [`BytesMut`] holds.
pub uninterp spec fn buffer_content(buffer: BytesMut) -> Seq<u8>;

/// The bytes that a [`Bytes`] holds.
pub uninterp spec fn bytes_content(bytes: Bytes) -> Seq<u8>;

/// The content of an optional payload: absent payloads stay absent.
pub open spec fn body_content(body: Option<Bytes>) -> Option<Seq<u8>> {
    match body {
        Some(b) => Some(bytes_content(b)),
        None => None,
    }
}

/// The number of bytes of an optional payload; an absent payload has none.
pub open spec fn body_len(body: Option<Bytes>) -> nat {
    match body {
        Some(b) => bytes_content(b).len(),
        None => 0,
    }
}

/// `BytesMut::len` returns the number of bytes held.
pub assume_specification[ BytesMut::len ](buffer: &BytesMut) -> (n: usize)
    ensures
        n == buffer_content(*buffer).len(),
;

/// `BytesMut::truncate` keeps the first `len` bytes and drops the rest; it has
/// no effect when `len` is not below the current length.
pub assume_specification[ BytesMut::truncate ](buffer: &mut BytesMut, len: usize)
    ensures
        buffer_content(*final(buffer)) == if len <= buffer_content(*old(buffer)).len() {
            buffer_content(*old(buffer)).take(len as int)
        } else {
            buffer_content(*old(buffer))
        },
;

/// `BytesMut::split_off` keeps the bytes before `at` and returns those from
/// `at` on. It panics beyond the capacity, which the length never exceeds.
pub assume_specification[ BytesMut::split_off ](buffer: &mut BytesMut, at: usize) -> (tail:
    BytesMut)
    requires
        at <= buffer_content(*old(buffer)).len(),
    ensures
        buffer_content(*final(buffer)) == buffer_content(*old(buffer)).take(at as int),
        buffer_content(tail) == buffer_content(*old(buffer)).skip(at as int),
;

/// `BytesMut::split_to` keeps the bytes from `at` on and returns those before
/// `at`. It panics when `at` is beyond the length.
pub assume_specification[ BytesMut::split_to ](buffer: &mut BytesMut, at: usize) -> (head: BytesMut)
    requires
        at <= buffer_content(*old(buffer)).len(),
    ensures
        buffer_content(*final(buffer)) == buffer_content(*old(buffer)).skip(at as int),
        buffer_content(head) == buffer_content(*old(buffer)).take(at as int),
;

/// `BytesMut::freeze` makes the buffer immutable; the bytes stay the same.
pub assume_specification[ BytesMut::freeze ](buffer: BytesMut) -> (bytes: Bytes)
    ensures
        bytes_content(bytes) == buffer_content(buffer),
;

/// `BytesMut::with_capacity` makes an empty buffer. It panics on a capacity
/// that no allocation can have.
pub assume_specification[ BytesMut::with_capacity ](capacity: usize) -> (buffer: BytesMut)
    requires
        capacity <= isize::MAX,
    ensures
        buffer_content(buffer) == Seq::<u8>::empty(),
;

/// `BytesMut::extend_from_slice` appends the given bytes. It panics when the
/// result would outgrow what an allocation can hold.
pub assume_specification[ BytesMut::extend_from_slice ](buffer: &mut BytesMut, extend: &[u8])
    requires
        buffer_content(*old(buffer)).len() + extend@.len() <= isize::MAX,
    ensures
        buffer_content(*final(buffer)) == buffer_content(*old(buffer)) + extend@,
;

/// `Bytes::len` returns the number of bytes held.
pub assume_specification[ Bytes::len ](bytes: &Bytes) -> (n: usize)
    ensures
        n == bytes_content(*bytes).len(),
;

/// `<BytesMut as AsRef<[u8]>>::as_ref` borrows the bytes held as a slice.
#[verifier::external_body]
pub(crate) fn buffer_slice(buffer: &BytesMut) -> (slice: &[u8])
    ensures
        slice@ == buffer_content(*buffer),
{
    buffer.as_ref()
}

/// `<Bytes as AsRef<[u8]>>::as_ref` borrows the bytes held as a slice.
#[verifier::external_body]
pub(crate) fn bytes_slice(bytes: &Bytes) -> (slice: &[u8])
    ensures
        slice@ == bytes_content(*bytes),
{
    bytes.as_ref()
}

/// `<Bytes as From<Vec<u8>>>::from` takes over the bytes of the vector.
#[verifier::external_body]
pub(crate) fn bytes_from_vec(bytes: Vec<u8>) -> (taken: Bytes)
    ensures
        bytes_content(taken) == bytes@,
{
    Bytes::from(bytes)
}

/// The length of an optional payload, `0` when there is none.
pub fn optional_len(body: &Option<Bytes>) -> (n: usize)
    ensures
        n == body_len(*body),
{
    match body {
        Some(b) => b.len(),
        None => 0,
    }
}

} // verus!
