use vstd::prelude::*;

verus! {

/// The outbound frame buffer of the `bytes` crate, carried through opaquely.
#[verifier::external_type_specification]
#[verifier::external_body]
pub struct ExBytesMut(bytes::BytesMut);

/// The bytes a `BytesMut` holds, first to last.
pub uninterp spec fn buffer_contents(b: bytes::BytesMut) -> Seq<u8>;

/// Relies on `BytesMut::with_capacity`: a buffer that holds no bytes yet.
#[verifier::external_body]
pub(crate) fn buffer_with_capacity(capacity: usize) -> (r: bytes::BytesMut)
    ensures
        buffer_contents(r) == Seq::<u8>::empty(),
{
    bytes::BytesMut::with_capacity(capacity)
}

/// Relies on `BytesMut::extend_from_slice`: appends the bytes of `src`. It
/// panics when the new length overflows, which `requires` rules out.
#[verifier::external_body]
pub(crate) fn buffer_extend(b: &mut bytes::BytesMut, src: &[u8])
    requires
        buffer_contents(*old(b)).len() + src@.len() <= isize::MAX,
    ensures
        buffer_contents(*final(b)) == buffer_contents(*old(b)) + src@,
{
    b.extend_from_slice(src)
}

/// Relies on `From<BytesMut> for Vec<u8>`: the same bytes in the same order.
#[verifier::external_body]
pub(crate) fn buffer_into_vec(b: bytes::BytesMut) -> (r: Vec<u8>)
    ensures
        r@ == buffer_contents(b),
{
    Vec::from(b)
}

} // verus!
