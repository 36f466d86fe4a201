//! The growing receive buffer.
//!
//! The connection loop accumulates raw socket bytes in a `bytes::BytesMut`
//! and hands it to the decoder, which consumes whole frames from its front.
//! Verus sees the buffer only through [`buf_bytes`], the sequence of bytes
//! it currently holds, and the two operations below.

use vstd::prelude::*;

verus! {

/// The declaration of `bytes::BytesMut` for Verus; values of it are opaque
/// and carry their contents only through [`buf_bytes`].
#[verifier::external_type_specification]
#[verifier::external_body]
pub struct ExBytesMut(bytes::BytesMut);

/// The bytes a buffer currently holds, front first.
pub uninterp spec fn buf_bytes(buf: bytes::BytesMut) -> Seq<u8>;

/// Relies on `BytesMut`'s dereference to `[u8]` and `<[u8]>::to_vec`: the
/// returned vector holds exactly the buffer's current bytes, in order, and
/// the buffer is unchanged.
#[verifier::external_body]
pub fn buf_to_vec(buf: &bytes::BytesMut) -> (v: Vec<u8>)
    ensures
        v@ == buf_bytes(*buf),
{
    buf[..].to_vec()
}

/// Relies on `bytes::Buf::advance`: discards exactly `cnt` bytes from the
/// front of the buffer. `advance` panics when `cnt` exceeds the remaining
/// length, so that is excluded here.
#[verifier::external_body]
pub fn buf_advance(buf: &mut bytes::BytesMut, cnt: usize)
    requires
        cnt <= buf_bytes(*old(buf)).len(),
    ensures
        buf_bytes(*final(buf)) == buf_bytes(*old(buf)).skip(cnt as int),
{
    bytes::Buf::advance(buf, cnt)
}

} // verus!
