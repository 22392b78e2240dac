//! What the rest of the library believes of the `bytes` crate's two buffer
//! types. Nothing here is proved: each contract restates what the crate's
//! source and documentation say of one function.

use bytes::{Bytes, BytesMut};
use vstd::prelude::*;

verus! {

/// `bytes::Bytes`, a cheaply cloneable handle on immutable bytes. Verus
/// sees nothing inside it; what it holds is `bytes_seq`.
#[verifier::external_type_specification]
#[verifier::external_body]
pub struct ExBytes(bytes::Bytes);

/// `bytes::BytesMut`, a growable buffer of bytes. Verus sees nothing
/// inside it; what it holds is `buf_seq`.
#[verifier::external_type_specification]
#[verifier::external_body]
pub struct ExBytesMut(bytes::BytesMut);

/// The bytes that a `Bytes` handle holds, first to last.
pub uninterp spec fn bytes_seq(b: Bytes) -> Seq<u8>;

/// The bytes that a `BytesMut` buffer holds, first to last.
pub uninterp spec fn buf_seq(b: BytesMut) -> Seq<u8>;

/// `Bytes::new`: an empty handle.
pub assume_specification[ Bytes::new ]() -> (b: Bytes)
    ensures
        bytes_seq(b) == Seq::<u8>::empty(),
;

/// `Bytes::len`: the number of bytes held.
pub assume_specification[ Bytes::len ](b: &Bytes) -> (n: usize)
    ensures
        n == bytes_seq(*b).len(),
;

/// `Bytes::split_to`: hands out the first `at` bytes and keeps the rest.
/// The crate panics when `at` exceeds the length.
pub assume_specification[ Bytes::split_to ](b: &mut Bytes, at: usize) -> (head: Bytes)
    requires
        at <= bytes_seq(*old(b)).len(),
    ensures
        bytes_seq(head) == bytes_seq(*old(b)).subrange(0, at as int),
        bytes_seq(*final(b)) == bytes_seq(*old(b)).subrange(
            at as int,
            bytes_seq(*old(b)).len() as int,
        ),
;

/// `Bytes::from(Vec<u8>)`: takes the vector's bytes over unchanged.
pub assume_specification[ <Bytes as From<Vec<u8>>>::from ](v: Vec<u8>) -> (b: Bytes)
    ensures
        bytes_seq(b) == v@,
;

/// `Bytes::clone`: a second handle on the same bytes. A frame is cloned
/// through it.
pub assume_specification[ <Bytes as Clone>::clone ](b: &Bytes) -> (c: Bytes)
    ensures
        bytes_seq(c) == bytes_seq(*b),
;

/// `Bytes::as_ref`: the bytes held, as a slice.
pub assume_specification<'a>[ <Bytes as AsRef<[u8]>>::as_ref ](b: &'a Bytes) -> (s: &'a [u8])
    ensures
        s@ == bytes_seq(*b),
;

/// `BytesMut::with_capacity`: an empty buffer.
pub assume_specification[ BytesMut::with_capacity ](capacity: usize) -> (b: BytesMut)
    ensures
        buf_seq(b) == Seq::<u8>::empty(),
;

/// `BytesMut::len`: the number of bytes held.
pub assume_specification[ BytesMut::len ](b: &BytesMut) -> (n: usize)
    ensures
        n == buf_seq(*b).len(),
;

/// `BytesMut::extend_from_slice`: appends the slice at the end.
pub assume_specification[ BytesMut::extend_from_slice ](b: &mut BytesMut, extend: &[u8])
    ensures
        buf_seq(*final(b)) == buf_seq(*old(b)) + extend@,
;

/// `BytesMut::split_to`: hands out the first `at` bytes and keeps the rest.
/// The crate panics when `at` exceeds the length.
pub assume_specification[ BytesMut::split_to ](b: &mut BytesMut, at: usize) -> (head: BytesMut)
    requires
        at <= buf_seq(*old(b)).len(),
    ensures
        buf_seq(head) == buf_seq(*old(b)).subrange(0, at as int),
        buf_seq(*final(b)) == buf_seq(*old(b)).subrange(
            at as int,
            buf_seq(*old(b)).len() as int,
        ),
;

/// `BytesMut::freeze`: the same bytes behind an immutable handle.
pub assume_specification[ BytesMut::freeze ](b: BytesMut) -> (f: Bytes)
    ensures
        bytes_seq(f) == buf_seq(b),
;

/// `BytesMut::as_ref`: the bytes held, as a slice.
pub assume_specification<'a>[ <BytesMut as AsRef<[u8]>>::as_ref ](b: &'a BytesMut) -> (s: &'a [u8])
    ensures
        s@ == buf_seq(*b),
;

} // verus!
