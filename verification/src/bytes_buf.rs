//! The byte buffers of the `bytes` crate, as the conversions use them.
//!
//! `Bytes` and `BytesMut` are opaque to Verus; what they hold is named by
//! `bytes_view` and `bytes_mut_view`, and each method the library calls has a
//! wrapper whose contract states what the crate's source shows it does to
//! that content.

use vstd::prelude::*;
use bytes::{BufMut, Bytes, BytesMut};

verus! {

#[verifier::external_type_specification]
#[verifier::external_body]
pub struct ExBytes(Bytes);

#[verifier::external_type_specification]
#[verifier::external_body]
pub struct ExBytesMut(BytesMut);

#[verifier::external_type_specification]
#[verifier::external_body]
#[verifier::reject_recursive_types(B)]
pub struct ExBufReader<B>(bytes::buf::Reader<B>);

#[verifier::external_type_specification]
#[verifier::external_body]
#[verifier::reject_recursive_types(B)]
pub struct ExBufWriter<B>(bytes::buf::Writer<B>);

/// The bytes that a `Bytes` value holds.
pub uninterp spec fn bytes_view(b: Bytes) -> Seq<u8>;

/// The bytes that a `BytesMut` buffer holds.
pub uninterp spec fn bytes_mut_view(b: BytesMut) -> Seq<u8>;

/// `Bytes::from(Vec<u8>)`: the `Bytes` holds exactly the vector's bytes.
#[verifier::external_body]
pub(crate) fn bytes_from_vec(v: Vec<u8>) -> (b: Bytes)
    ensures
        bytes_view(b) == v@,
{
    Bytes::from(v)
}

/// `Bytes` dereferenced to a slice: the slice is exactly the held bytes.
#[verifier::external_body]
pub(crate) fn bytes_as_slice(b: &Bytes) -> (s: &[u8])
    ensures
        s@ == bytes_view(*b),
{
    &b[..]
}

/// `BytesMut::new()`: an empty buffer.
#[verifier::external_body]
pub(crate) fn bytes_mut_new() -> (m: BytesMut)
    ensures
        bytes_mut_view(m) == Seq::<u8>::empty(),
{
    BytesMut::new()
}

/// `BufMut::put_slice` on a `BytesMut`: appends the slice's bytes.  Like
/// `Vec::extend_from_slice`, the buffer grows as needed; running out of
/// memory is not modelled.
#[verifier::external_body]
pub(crate) fn bytes_mut_put_slice(m: &mut BytesMut, s: &[u8])
    ensures
        bytes_mut_view(*final(m)) == bytes_mut_view(*old(m)) + s@,
{
    m.put_slice(s)
}

/// `BytesMut` dereferenced to a slice: the slice is exactly the held bytes.
#[verifier::external_body]
pub(crate) fn bytes_mut_as_slice(m: &BytesMut) -> (s: &[u8])
    ensures
        s@ == bytes_mut_view(*m),
{
    &m[..]
}

/// `BytesMut::truncate`: keeps the first `len` bytes, and does nothing when
/// the buffer is not longer than `len`.
#[verifier::external_body]
pub(crate) fn bytes_mut_truncate(m: &mut BytesMut, len: usize)
    ensures
        len <= bytes_mut_view(*old(m)).len() ==> bytes_mut_view(*final(m)) == bytes_mut_view(
            *old(m),
        ).take(len as int),
        len > bytes_mut_view(*old(m)).len() ==> bytes_mut_view(*final(m)) == bytes_mut_view(
            *old(m),
        ),
{
    m.truncate(len)
}

/// `BytesMut::freeze`: a `Bytes` holding the same bytes.
#[verifier::external_body]
pub(crate) fn bytes_mut_freeze(m: BytesMut) -> (b: Bytes)
    ensures
        bytes_view(b) == bytes_mut_view(m),
{
    m.freeze()
}

} // verus!
