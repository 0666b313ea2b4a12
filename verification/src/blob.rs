//! The shared byte buffer that keys and values travel in.
//!
//! [`bytes::Bytes`] is opaque here. Contracts speak of its contents through
//! [`bytes_seq`], and the few operations the library needs are the wrappers
//! below.

use bytes::Bytes;
use vstd::prelude::*;

verus! {

/// The outside type `bytes::Bytes`, carried as an opaque value.
#[verifier::external_type_specification]
#[verifier::external_body]
pub struct ExBytes(Bytes);

/// The bytes that a `Bytes` value holds, in order.
pub uninterp spec fn bytes_seq(b: Bytes) -> Seq<u8>;

/// The bytes of an optional buffer.
pub open spec fn opt_seq(b: Option<Bytes>) -> Option<Seq<u8>> {
    match b {
        Some(b) => Some(bytes_seq(b)),
        None => None,
    }
}

/// The bytes of an optional slice.
pub open spec fn opt_slice(s: Option<&[u8]>) -> Option<Seq<u8>> {
    match s {
        Some(s) => Some(s@),
        None => None,
    }
}

/// `Bytes::from(Vec<u8>)`: takes over the vector, so the buffer holds exactly
/// the vector's bytes.
#[verifier::external_body]
pub(crate) fn bytes_from_vec(data: Vec<u8>) -> (b: Bytes)
    ensures
        bytes_seq(b) == data@,
{
    Bytes::from(data)
}

/// `Bytes::copy_from_slice`: a buffer with a copy of the slice's bytes.
#[verifier::external_body]
pub(crate) fn bytes_copy_of(data: &[u8]) -> (b: Bytes)
    ensures
        bytes_seq(b) == data@,
{
    Bytes::copy_from_slice(data)
}

/// `Bytes::slice(from..)`: the contents from position `from` on, which must
/// not lie past the end.
#[verifier::external_body]
pub(crate) fn bytes_tail(b: &Bytes, from: usize) -> (tail: Bytes)
    requires
        from <= bytes_seq(*b).len(),
    ensures
        bytes_seq(tail) == bytes_seq(*b).subrange(from as int, bytes_seq(*b).len() as int),
{
    b.slice(from..)
}

/// `<Bytes as AsRef<[u8]>>::as_ref`: the contents as a slice.
#[verifier::external_body]
pub(crate) fn bytes_as_slice(b: &Bytes) -> (data: &[u8])
    ensures
        data@ == bytes_seq(*b),
{
    b.as_ref()
}

/// `<Bytes as Clone>::clone`: another handle on the same contents.
pub assume_specification[ <Bytes as Clone>::clone ](b: &Bytes) -> (copy: Bytes)
    ensures
        bytes_seq(copy) == bytes_seq(*b),
;

} // verus!
