//! Byte buffers of the `bytes` crate, as far as the framed transport uses them.

use bytes::{Bytes, BytesMut};
use vstd::prelude::*;

verus! {

/// A growable byte buffer.
#[verifier::external_type_specification]
#[verifier::external_body]
pub struct ExBytesMut(BytesMut);

/// A shared, immutable run of bytes.
#[verifier::external_type_specification]
#[verifier::external_body]
pub struct ExBytes(Bytes);

/// The bytes that a buffer holds.
pub uninterp spec fn buffer_bytes(b: BytesMut) -> Seq<u8>;

/// The bytes that a frozen buffer holds.
pub uninterp spec fn frozen_bytes(b: Bytes) -> Seq<u8>;

/// `BytesMut::new` makes a buffer without bytes.
pub assume_specification[ BytesMut::new ]() -> (b: BytesMut)
    ensures
        buffer_bytes(b) == Seq::<u8>::empty(),
;

/// `BytesMut::with_capacity` makes a buffer without bytes. It panics on a capacity beyond
/// `isize::MAX`.
pub assume_specification[ BytesMut::with_capacity ](capacity: usize) -> (b: BytesMut)
    requires
        capacity <= isize::MAX,
    ensures
        buffer_bytes(b) == Seq::<u8>::empty(),
;

/// `BytesMut::is_empty` tells whether the buffer holds no byte.
pub assume_specification[ BytesMut::is_empty ](b: &BytesMut) -> (r: bool)
    ensures
        r == (buffer_bytes(*b).len() == 0),
;

/// `BytesMut::len` gives the number of bytes.
pub assume_specification[ BytesMut::len ](b: &BytesMut) -> (r: usize)
    ensures
        r == buffer_bytes(*b).len(),
;

/// `BytesMut::capacity` gives the number of bytes for which the buffer has memory, which depends
/// on what the allocator gave and is never less than the number of bytes in it.
pub assume_specification[ BytesMut::capacity ](b: &BytesMut) -> (r: usize)
    ensures
        r >= buffer_bytes(*b).len(),
;

/// `BytesMut::reserve` keeps the bytes and gets memory for `additional` more; the result is what
/// `BytesMut::capacity` gives then. It panics when the memory that it asks for exceeds `isize::MAX`.
/// It asks for more only when less was taken from the front of the buffer than is to be in it
/// afterwards, and then for at most twice what was taken and what is to be in it together: four
/// times the bytes that are to fit are a bound on it. Memory that is shared it leaves to the
/// others, and asks for what is to fit, or for the capacity that the buffer was made with, of
/// which it remembers no more than 64 KiB.
#[verifier::external_body]
pub(crate) fn reserve(b: &mut BytesMut, additional: usize) -> (r: usize)
    requires
        4 * (buffer_bytes(*old(b)).len() + additional) <= isize::MAX,
    ensures
        buffer_bytes(*final(b)) == buffer_bytes(*old(b)),
        r >= buffer_bytes(*old(b)).len() + additional,
        call_ensures(BytesMut::capacity, (&*final(b),), r),
{
    b.reserve(additional);
    b.capacity()
}

/// `BytesMut::split` moves all bytes of the buffer to a new one and leaves it empty.
pub assume_specification[ BytesMut::split ](b: &mut BytesMut) -> (r: BytesMut)
    ensures
        buffer_bytes(r) == buffer_bytes(*old(b)),
        buffer_bytes(*final(b)) == Seq::<u8>::empty(),
;

/// `BytesMut::freeze` keeps the bytes.
pub assume_specification[ BytesMut::freeze ](b: BytesMut) -> (r: Bytes)
    ensures
        frozen_bytes(r) == buffer_bytes(b),
;

} // verus!
