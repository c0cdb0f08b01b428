//! Contracts for the `bytes` buffers that carry media data through the library.
//!
//! `Bytes` and `BytesMut` are opaque to the verifier. Their contents are named by
//! two uninterpreted functions, and each buffer operation the library calls is
//! given a contract over those names. None of these contracts is proved here:
//! they restate what the `bytes` crate documents.

use bytes::Bytes;
use bytes::BytesMut;
use vstd::prelude::*;

verus! {

#[verifier::external_type_specification]
#[verifier::external_body]
pub struct ExBytes(bytes::Bytes);

#[verifier::external_type_specification]
#[verifier::external_body]
pub struct ExBytesMut(bytes::BytesMut);

/// The bytes held by a frozen buffer, in order.
pub uninterp spec fn frozen(b: Bytes) -> Seq<u8>;

/// The bytes held by a growable buffer, in order.
pub uninterp spec fn buffered(b: BytesMut) -> Seq<u8>;

/// `BytesMut::new` returns a buffer that holds no bytes.
pub assume_specification[ BytesMut::new ]() -> (b: BytesMut)
    ensures
        buffered(b) == Seq::<u8>::empty(),
;

/// `BytesMut::len` returns the number of bytes held.
pub assume_specification[ BytesMut::len ](b: &BytesMut) -> (n: usize)
    ensures
        n == buffered(*b).len(),
;

/// `BytesMut::is_empty` tells whether the buffer holds no bytes.
pub assume_specification[ BytesMut::is_empty ](b: &BytesMut) -> (e: bool)
    ensures
        e == (buffered(*b).len() == 0),
;

/// The largest number of bytes that a buffer may hold after an append: a
/// quarter of `isize::MAX`.
pub open spec fn buffer_limit() -> int {
    isize::MAX as int / 4
}

/// `BytesMut::extend_from_slice` appends the slice to the buffer. It reserves
/// room first, and panics when the capacity it asks for exceeds what can be
/// allocated. It asks for at most four times the bytes held and appended
/// together, so the precondition keeps every request within `isize::MAX`.
pub assume_specification[ BytesMut::extend_from_slice ](b: &mut BytesMut, extend: &[u8])
    requires
        buffered(*old(b)).len() + extend@.len() <= buffer_limit(),
    ensures
        buffered(*final(b)) == buffered(*old(b)) + extend@,
;

/// `BytesMut::split_to` hands out the first `at` bytes and keeps the rest. It
/// panics when `at` exceeds the length, which the precondition excludes.
pub assume_specification[ BytesMut::split_to ](b: &mut BytesMut, at: usize) -> (head: BytesMut)
    requires
        at <= buffered(*old(b)).len(),
    ensures
        buffered(head) == buffered(*old(b)).subrange(0, at as int),
        buffered(*final(b)) == buffered(*old(b)).subrange(at as int, buffered(*old(b)).len() as int),
;

/// `BytesMut::split` hands out everything held and leaves the buffer empty.
pub assume_specification[ BytesMut::split ](b: &mut BytesMut) -> (all: BytesMut)
    ensures
        buffered(all) == buffered(*old(b)),
        buffered(*final(b)) == Seq::<u8>::empty(),
;

/// `BytesMut::freeze` turns the buffer into an immutable one with the same bytes.
pub assume_specification[ BytesMut::freeze ](b: BytesMut) -> (f: Bytes)
    ensures
        frozen(f) == buffered(b),
;

/// `Clone` for `BytesMut` copies the bytes into a fresh buffer.
pub assume_specification[ <BytesMut as Clone>::clone ](b: &BytesMut) -> (c: BytesMut)
    ensures
        buffered(c) == buffered(*b),
;

/// `AsRef<[u8]>` for `BytesMut` borrows the bytes held.
pub assume_specification<'a>[ <BytesMut as AsRef<[u8]>>::as_ref ](b: &'a BytesMut) -> (s: &'a [u8])
    ensures
        s@ == buffered(*b),
;

/// `Bytes::len` returns the number of bytes held.
pub assume_specification[ Bytes::len ](b: &Bytes) -> (n: usize)
    ensures
        n == frozen(*b).len(),
;

/// `Clone` for `Bytes` yields a handle to the same bytes.
pub assume_specification[ <Bytes as Clone>::clone ](b: &Bytes) -> (c: Bytes)
    ensures
        frozen(c) == frozen(*b),
;

/// `AsRef<[u8]>` for `Bytes` borrows the bytes held.
pub assume_specification<'a>[ <Bytes as AsRef<[u8]>>::as_ref ](b: &'a Bytes) -> (s: &'a [u8])
    ensures
        s@ == frozen(*b),
;

} // verus!
