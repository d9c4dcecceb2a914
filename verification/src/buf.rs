//! Writing bytes into an output buffer through `bytes::BufMut` and
//! `quinn_proto::coding::Codec`.
use vstd::prelude::*;

verus! {

/// Appends one byte to `buf`.
///
/// Calls `<u8 as quinn_proto::coding::Codec>::encode`, which calls
/// `bytes::BufMut::put_u8` on the vector; for `Vec<u8>` that appends the
/// byte (through `extend_from_slice`). The vector grows past `isize::MAX`
/// bytes only by panicking, which the `requires` rules out.
#[verifier::external_body]
pub(crate) fn write_u8(buf: &mut Vec<u8>, byte: u8)
    requires
        old(buf)@.len() + 1 <= isize::MAX,
    ensures
        final(buf)@ == old(buf)@.push(byte),
{
    quinn_proto::coding::Codec::encode(&byte, buf);
}

/// Appends the bytes of `src` to `buf`.
///
/// Calls `bytes::BufMut::put_slice`, which for `Vec<u8>` is
/// `extend_from_slice`.
#[verifier::external_body]
pub(crate) fn write_slice(buf: &mut Vec<u8>, src: &[u8])
    requires
        old(buf)@.len() + src@.len() <= isize::MAX,
    ensures
        final(buf)@ == old(buf)@ + src@,
{
    bytes::BufMut::put_slice(buf, src);
}

/// Appends the remaining bytes of the buffer `src` to `buf`.
///
/// Calls `bytes::BufMut::put` with the slice as the source `Buf`; for
/// `Vec<u8>` it reserves room and copies the slice with
/// `extend_from_slice`.
#[verifier::external_body]
pub(crate) fn put_buf(buf: &mut Vec<u8>, src: &[u8])
    requires
        old(buf)@.len() + src@.len() <= isize::MAX,
    ensures
        final(buf)@ == old(buf)@ + src@,
{
    bytes::BufMut::put(buf, src);
}

} // verus!
