//! Reference-counted byte buffers sent and received on a body.
//!
//! A `fluxio_buf` wraps a `bytes::Bytes`: an immutable byte range that is
//! cheap to share and never mutated after construction.  The contents of a
//! `Bytes` value are modelled by the uninterpreted `bytes_view` function,
//! and the few `bytes` operations the boundary needs are trusted wrappers
//! whose contracts speak over that view.

use vstd::prelude::*;

verus! {

#[verifier::external_type_specification]
#[verifier::external_body]
pub struct ExBytes(bytes::Bytes);

/// The bytes a `bytes::Bytes` value holds.
pub uninterp spec fn bytes_view(b: bytes::Bytes) -> Seq<u8>;

/// Relies on bytes::Bytes::copy_from_slice: the new buffer holds a copy of
/// the given bytes.
#[verifier::external_body]
fn bytes_copy_from_slice(data: &[u8]) -> (r: bytes::Bytes)
    ensures
        bytes_view(r) == data@,
{
    bytes::Bytes::copy_from_slice(data)
}

/// Relies on bytes::Bytes::len: the number of bytes the buffer holds.
#[verifier::external_body]
fn bytes_len(b: &bytes::Bytes) -> (r: usize)
    ensures
        r == bytes_view(*b).len(),
{
    b.len()
}

/// Relies on the slice view of bytes::Bytes (its Deref to `[u8]`): the
/// returned vector copies exactly the bytes the buffer holds.
#[verifier::external_body]
fn bytes_to_vec(b: &bytes::Bytes) -> (r: Vec<u8>)
    ensures
        r@ == bytes_view(*b),
{
    b.as_ref().to_vec()
}

/// Relies on the Clone impl of bytes::Bytes: a clone shares the same bytes.
#[verifier::external_body]
fn bytes_clone(b: &bytes::Bytes) -> (r: bytes::Bytes)
    ensures
        bytes_view(r) == bytes_view(*b),
{
    b.clone()
}

/// A buffer of bytes that is sent or received on a body.
pub struct fluxio_buf {
    data: bytes::Bytes,
}

impl fluxio_buf {
    /// The bytes this buffer holds.
    pub closed spec fn view_spec(&self) -> Seq<u8> {
        bytes_view(self.data)
    }

    /// Build a buffer around an already shared byte range.
    pub fn from_bytes(data: bytes::Bytes) -> (r: fluxio_buf)
        ensures
            r.view_spec() == bytes_view(data),
    {
        fluxio_buf { data }
    }

    /// A second handle onto the same byte range.
    pub fn share(&self) -> (r: fluxio_buf)
        ensures
            r.view_spec() == self.view_spec(),
    {
        fluxio_buf { data: bytes_clone(&self.data) }
    }
}

/// Create a new buffer by copying the provided bytes, so the argument can
/// be freed or changed afterwards.
pub fn fluxio_buf_copy(data: &Vec<u8>) -> (r: fluxio_buf)
    ensures
        r.view_spec() == data@,
{
    fluxio_buf { data: bytes_copy_from_slice(data.as_slice()) }
}

/// Get a copy of the bytes in this buffer.
pub fn fluxio_buf_bytes(buf: &fluxio_buf) -> (r: Vec<u8>)
    ensures
        r@ == buf.view_spec(),
{
    bytes_to_vec(&buf.data)
}

/// Get the length of the bytes this buffer contains.
pub fn fluxio_buf_len(buf: &fluxio_buf) -> (r: usize)
    ensures
        r == buf.view_spec().len(),
{
    bytes_len(&buf.data)
}

/// Free this buffer.
pub fn fluxio_buf_free(buf: fluxio_buf) {
    let _ = buf;
}

} // verus!
