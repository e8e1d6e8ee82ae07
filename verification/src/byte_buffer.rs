//! The shared byte buffer that carries media payloads between stages.
//!
//! `bytes::Bytes` is opaque to the verifier. Its contents are named by
//! [`bytes_contents`], and the few operations the library performs on it are
//! stated over that name. Nothing in this file is proved: each contract
//! restates what the buffer's own documentation promises.

use vstd::prelude::*;
use bytes::Bytes;

verus! {

/// `bytes::Bytes`: a cheaply cloneable handle onto a run of bytes.
#[verifier::external_type_specification]
#[verifier::external_body]
pub struct ExBytes(bytes::Bytes);

/// The bytes a buffer holds, in order.
pub uninterp spec fn bytes_contents(b: Bytes) -> Seq<u8>;

/// `Bytes` dereferences to the slice of the bytes it holds (`AsRef<[u8]>`):
/// the borrowed slice has exactly the buffer's contents.
#[verifier::external_body]
pub(crate) fn bytes_as_slice(b: &Bytes) -> (s: &[u8])
    ensures
        s@ == bytes_contents(*b),
{
    b.as_ref()
}

/// `Bytes::slice` with the range `offset..`: a new handle onto the same
/// memory that holds the bytes from `offset` to the end. The outside function
/// panics when the range starts past the end, which `requires` rules out.
#[verifier::external_body]
pub(crate) fn bytes_tail(b: &Bytes, offset: usize) -> (t: Bytes)
    requires
        offset <= bytes_contents(*b).len(),
    ensures
        bytes_contents(t) == bytes_contents(*b).skip(offset as int),
{
    b.slice(offset..)
}

/// `Bytes::from(Vec<u8>)`: takes over the vector's storage; the buffer holds
/// the vector's bytes unchanged.
#[verifier::external_body]
pub(crate) fn bytes_from_vec(v: Vec<u8>) -> (b: Bytes)
    ensures
        bytes_contents(b) == v@,
{
    Bytes::from(v)
}

} // verus!
