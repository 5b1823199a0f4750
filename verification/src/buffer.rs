//! The byte buffer of a connection is a `bytes::BytesMut`. This module says
//! what the library takes its operations to do. Nothing here is proved: each
//! statement is read off the source of the `bytes` crate.
//!
//! As for `Vec`, running out of memory is not modelled.
use bytes::{Buf, BytesMut};
use vstd::prelude::*;

verus! {

/// `bytes::BytesMut`, declared so that it can stand in a field. What it holds
/// is known only through [`contents`].
#[verifier::external_type_specification]
#[verifier::external_body]
pub struct ExBytesMut(BytesMut);

/// The bytes that the buffer holds, in order.
pub uninterp spec fn contents(buf: &BytesMut) -> Seq<u8>;

/// `BytesMut::with_capacity` gives a buffer that holds no bytes. It hands
/// the capacity to `Vec::with_capacity`, which panics above `isize::MAX`.
pub assume_specification[ BytesMut::with_capacity ](capacity: usize) -> (buf: BytesMut)
    requires
        capacity <= isize::MAX,
    ensures
        contents(&buf) == Seq::<u8>::empty(),
;

/// `BytesMut::len` is the number of bytes held.
pub assume_specification[ BytesMut::len ](buf: &BytesMut) -> (len: usize)
    ensures
        len == contents(buf).len(),
;

/// `BytesMut::extend_from_slice` appends the bytes of the slice. It reserves
/// room first, which panics where the new length cannot be a capacity: no
/// allocation is larger than `isize::MAX`.
pub assume_specification[ BytesMut::extend_from_slice ](buf: &mut BytesMut, extend: &[u8])
    requires
        contents(old(buf)).len() + extend@.len() <= isize::MAX,
    ensures
        contents(final(buf)) == contents(old(buf)) + extend@,
;

/// `Buf::advance` on a `BytesMut` drops the first `cnt` bytes. It panics
/// where fewer are held.
pub assume_specification[ <BytesMut as Buf>::advance ](buf: &mut BytesMut, cnt: usize)
    requires
        cnt <= contents(old(buf)).len(),
    ensures
        contents(final(buf)) == contents(old(buf)).skip(cnt as int),
;

/// `AsRef::as_ref` on a `BytesMut` is the slice of the bytes held.
pub assume_specification<'a>[ <BytesMut as AsRef<[u8]>>::as_ref ](buf: &'a BytesMut) -> (bytes:
    &'a [u8])
    ensures
        bytes@ == contents(buf),
;

} // verus!
