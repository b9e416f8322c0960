//! Byte strings, as `bytes` holds them.

use bytes::{Bytes, BytesMut};
use vstd::prelude::*;
use vstd::utf8::*;

verus! {

#[verifier::external_type_specification]
#[verifier::external_body]
pub struct ExBytes(bytes::Bytes);

#[verifier::external_type_specification]
#[verifier::external_body]
pub struct ExBytesMut(bytes::BytesMut);

/// The bytes that a `Bytes` holds.
pub uninterp spec fn octets(b: Bytes) -> Seq<u8>;

/// The bytes that a `BytesMut` holds.
pub uninterp spec fn buffered(b: BytesMut) -> Seq<u8>;

/// The bytes of each of a list of `Bytes`.
pub open spec fn all_octets(list: Seq<Bytes>) -> Seq<Seq<u8>> {
    list.map_values(|b: Bytes| octets(b))
}

/// `Bytes::from(String)`: the UTF-8 encoding of the text.
#[verifier::external_body]
pub(crate) fn bytes_of_string(text: String) -> (b: Bytes)
    ensures
        octets(b) == encode_utf8(text@),
{
    Bytes::from(text)
}

/// `Bytes::from(&'static str)`: the UTF-8 encoding of the text.
#[verifier::external_body]
pub(crate) fn bytes_of_literal(text: &'static str) -> (b: Bytes)
    ensures
        octets(b) == encode_utf8(text@),
{
    Bytes::from(text)
}

/// `Bytes::clone`: a second handle on the same bytes.
#[verifier::external_body]
pub(crate) fn bytes_clone(b: &Bytes) -> (r: Bytes)
    ensures
        octets(r) == octets(*b),
{
    b.clone()
}

/// `Bytes::as_ref`: the bytes as a slice.
#[verifier::external_body]
pub(crate) fn bytes_slice(b: &Bytes) -> (r: &[u8])
    ensures
        r@ == octets(*b),
{
    b.as_ref()
}

/// `BytesMut::from(&[u8])`: a buffer that holds a copy of the slice.
#[verifier::external_body]
pub(crate) fn buffer_of(slice: &[u8]) -> (b: BytesMut)
    ensures
        buffered(b) == slice@,
{
    BytesMut::from(slice)
}

/// `BytesMut::extend_from_slice`: appends a copy of the slice.
#[verifier::external_body]
pub(crate) fn buffer_extend(b: &mut BytesMut, slice: &[u8])
    ensures
        buffered(*final(b)) == buffered(*old(b)) + slice@,
{
    b.extend_from_slice(slice)
}

/// `BytesMut::freeze`: the buffered bytes, from now on immutable.
#[verifier::external_body]
pub(crate) fn buffer_freeze(b: BytesMut) -> (r: Bytes)
    ensures
        octets(r) == buffered(b),
{
    b.freeze()
}

/// Each byte string of a list is told by itself.
pub proof fn law_each_of_the_list(list: Seq<Bytes>, k: int)
    requires
        0 <= k < list.len(),
    ensures
        all_octets(list).len() == list.len(),
        all_octets(list)[k] == octets(list[k]),
{
}

} // verus!
