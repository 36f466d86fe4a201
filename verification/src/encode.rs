//! Byte-exact encoding of frames.
//!
//! [`frame_enc`] is the mathematical statement of the wire format: every
//! encode function promises to produce exactly those bytes, and the decoder's
//! contracts and the round-trip laws are stated against it.

use crate::frame::{
    frame_view, frames_view, BulkString, FrameView, NullBulkString, RespBulkString, RespFrame,
};
use vstd::prelude::*;

verus! {

broadcast use vstd::std_specs::vec::group_vec_axioms, vstd::seq::group_seq_axioms;

/// The two-byte line terminator.
pub open spec fn crlf() -> Seq<u8> {
    seq![13u8, 10u8]
}

/// The decimal digits of `n`, most significant first, no sign, no leading
/// zeros (`0` encodes as the single digit `0`).
pub open spec fn dec_u64(n: nat) -> Seq<u8>
    decreases n,
{
    if n < 10 {
        seq![(48 + n) as u8]
    } else {
        dec_u64(n / 10) + seq![(48 + n % 10) as u8]
    }
}

/// The decimal form of a signed 64-bit integer: a minus sign for negative
/// values, then the digits of the magnitude.
pub open spec fn int_bytes(i: i64) -> Seq<u8> {
    if i >= 0 {
        dec_u64(i as nat)
    } else {
        seq![45u8] + dec_u64((-(i as int)) as nat)
    }
}

/// The fixed five-byte encoding of the null bulk string: `$-1` then CRLF.
pub open spec fn null_bulk_enc() -> Seq<u8> {
    seq![36u8, 45u8, 49u8, 13u8, 10u8]
}

/// The fixed five-byte encoding of the null array: `*-1` then CRLF.
pub open spec fn null_array_enc() -> Seq<u8> {
    seq![42u8, 45u8, 49u8, 13u8, 10u8]
}

/// The encoding of one frame:
/// - integer: `:` + decimal value + CRLF,
/// - bulk string of length L: `$` + decimal L + CRLF + payload + CRLF,
/// - null bulk string: `$-1` + CRLF,
/// - array of N elements: `*` + decimal N + CRLF + each element's encoding,
/// - null array: `*-1` + CRLF.
pub open spec fn frame_enc(v: FrameView) -> Seq<u8>
    decreases v,
{
    match v {
        FrameView::Int(i) => seq![58u8] + int_bytes(i) + crlf(),
        FrameView::Bulk(b) => seq![36u8] + dec_u64(b.len()) + crlf() + b + crlf(),
        FrameView::NullBulk => null_bulk_enc(),
        FrameView::Arr(es) => seq![42u8] + dec_u64(es.len()) + crlf() + elems_enc(es),
        FrameView::NullArr => null_array_enc(),
    }
}

/// The concatenated encodings of a sequence of frames, in order.
pub open spec fn elems_enc(es: Seq<FrameView>) -> Seq<u8>
    decreases es,
{
    if es.len() == 0 {
        Seq::empty()
    } else {
        elems_enc(es.drop_last()) + frame_enc(es.last())
    }
}

/// Peeling the first element off `elems_enc`; the definition peels the last.
pub proof fn lemma_elems_enc_head(es: Seq<FrameView>)
    requires
        es.len() > 0,
    ensures
        elems_enc(es) == frame_enc(es[0]) + elems_enc(es.drop_first()),
    decreases es.len(),
{
    if es.len() == 1 {
        assert(es.drop_last() =~= Seq::<FrameView>::empty());
        assert(es.drop_first() =~= Seq::<FrameView>::empty());
        assert(elems_enc(es) == elems_enc(es.drop_last()) + frame_enc(es.last()));
        assert(Seq::<u8>::empty() + frame_enc(es[0]) =~= frame_enc(es[0]));
        assert(frame_enc(es[0]) + Seq::<u8>::empty() =~= frame_enc(es[0]));
    } else {
        lemma_elems_enc_head(es.drop_last());
        assert(es.drop_last()[0] == es[0]);
        assert(es.drop_last().drop_first() =~= es.drop_first().drop_last());
        assert(es.drop_first().last() == es.last());
        assert(elems_enc(es.drop_first()) == elems_enc(es.drop_first().drop_last())
            + frame_enc(es.drop_first().last()));
        assert(elems_enc(es) == (frame_enc(es[0]) + elems_enc(es.drop_last().drop_first()))
            + frame_enc(es.last()));
        assert((frame_enc(es[0]) + elems_enc(es.drop_first().drop_last())) + frame_enc(es.last())
            =~= frame_enc(es[0]) + elems_enc(es.drop_first()));
    }
}

/// Appends the CRLF terminator.
fn push_crlf(out: &mut Vec<u8>)
    ensures
        final(out)@ == old(out)@ + crlf(),
{
    out.push(13);
    out.push(10);
    proof {
        assert(final(out)@ =~= old(out)@ + crlf());
    }
}

/// Appends the decimal digits of `n`.
fn push_u64_dec(out: &mut Vec<u8>, n: u64)
    ensures
        final(out)@ == old(out)@ + dec_u64(n as nat),
    decreases n,
{
    if n < 10 {
        out.push(48 + n as u8);
        proof {
            assert(final(out)@ =~= old(out)@ + dec_u64(n as nat));
        }
    } else {
        push_u64_dec(out, n / 10);
        out.push(48 + (n % 10) as u8);
        proof {
            assert(final(out)@ =~= old(out)@ + dec_u64(n as nat));
        }
    }
}

/// Appends the decimal form of a signed 64-bit integer.
fn push_int(out: &mut Vec<u8>, i: i64)
    ensures
        final(out)@ == old(out)@ + int_bytes(i),
{
    if i >= 0 {
        push_u64_dec(out, i as u64);
    } else {
        out.push(45);
        let m: u64 = (-(i as i128)) as u64;
        push_u64_dec(out, m);
        proof {
            assert(final(out)@ =~= old(out)@ + int_bytes(i));
        }
    }
}

/// Appends a copy of `b`.
fn push_bytes(out: &mut Vec<u8>, b: &Vec<u8>)
    ensures
        final(out)@ == old(out)@ + b@,
{
    let mut i: usize = 0;
    while i < b.len()
        invariant
            i <= b.len(),
            out@ == old(out)@ + b@.take(i as int),
        decreases b.len() - i,
    {
        out.push(b[i]);
        proof {
            assert(old(out)@ + b@.take(i as int + 1) =~= (old(out)@ + b@.take(i as int)).push(
                b@[i as int],
            ));
        }
        i = i + 1;
    }
    proof {
        assert(b@.take(b@.len() as int) =~= b@);
    }
}

/// Appends the encoding of `f`.
#[verifier::loop_isolation(false)]
fn encode_frame(f: &RespFrame, out: &mut Vec<u8>)
    ensures
        final(out)@ == old(out)@ + frame_enc(f@),
    decreases f,
{
    match f {
        RespFrame::Integer(i) => {
            out.push(58);
            push_int(out, *i);
            push_crlf(out);
            proof {
                assert(final(out)@ =~= old(out)@ + frame_enc(f@));
            }
        },
        RespFrame::BulkString(b) => {
            out.push(36);
            push_u64_dec(out, b.0.len() as u64);
            push_crlf(out);
            push_bytes(out, &b.0);
            push_crlf(out);
            proof {
                assert(final(out)@ =~= old(out)@ + frame_enc(f@));
            }
        },
        RespFrame::NullBulkString(_) => {
            out.push(36);
            out.push(45);
            out.push(49);
            push_crlf(out);
            proof {
                assert(final(out)@ =~= old(out)@ + frame_enc(f@));
            }
        },
        RespFrame::Array(l) => {
            out.push(42);
            push_u64_dec(out, l.len() as u64);
            push_crlf(out);
            let ghost hdr = old(out)@ + seq![42u8] + dec_u64(l@.len() as nat) + crlf();
            proof {
                assert(out@ =~= hdr);
                assert(frames_view(l@).take(0) =~= Seq::<FrameView>::empty());
                assert(hdr + elems_enc(frames_view(l@).take(0)) =~= hdr);
            }
            let n = l.len();
            let mut i: usize = 0;
            while i < n
                invariant
                    i <= n,
                    out@ == hdr + elems_enc(frames_view(l@).take(i as int)),
                decreases n - i,
            {
                proof {
                    let fv: RespFrame = *f;
                    match fv {
                        RespFrame::Array(ll) => {
                            assert(decreases_to!(fv => ll));
                            assert(decreases_to!(ll => ll[i as int]));
                        },
                        _ => {},
                    }
                }
                encode_frame(&l[i], out);
                proof {
                    let vs = frames_view(l@);
                    assert(vs.take(i as int + 1).drop_last() =~= vs.take(i as int));
                    assert(vs.take(i as int + 1).last() == vs[i as int]);
                    assert(vs[i as int] == l@[i as int]@);
                    assert(out@ =~= hdr + elems_enc(vs.take(i as int + 1)));
                }
                i = i + 1;
            }
            proof {
                let vs = frames_view(l@);
                assert(vs.take(n as int) =~= vs);
                assert(hdr + elems_enc(vs) =~= old(out)@ + frame_enc(f@));
            }
        },
        RespFrame::NullArray(_) => {
            out.push(42);
            out.push(45);
            out.push(49);
            push_crlf(out);
            proof {
                assert(final(out)@ =~= old(out)@ + frame_enc(f@));
            }
        },
    }
}

impl RespFrame {
    /// Encodes the frame as its exact wire bytes; encoding is total.
    pub fn encode(self) -> (r: Vec<u8>)
        ensures
            r@ == frame_enc(self@),
    {
        let mut out: Vec<u8> = Vec::new();
        encode_frame(&self, &mut out);
        proof {
            assert(Seq::<u8>::empty() + frame_enc(self@) =~= frame_enc(self@));
        }
        out
    }
}

impl BulkString {
    /// Encodes the bulk string: `$`, the decimal payload length, CRLF, the
    /// payload, CRLF.
    pub fn encode(self) -> (r: Vec<u8>)
        ensures
            r@ == frame_enc(FrameView::Bulk(self@)),
    {
        let f = RespFrame::BulkString(self);
        f.encode()
    }
}

impl NullBulkString {
    /// Encodes the null bulk string: the fixed five bytes `$-1` CRLF.
    pub fn encode(self) -> (r: Vec<u8>)
        ensures
            r@ == null_bulk_enc(),
    {
        let f = RespFrame::NullBulkString(self);
        f.encode()
    }
}

impl RespBulkString {
    /// Encodes whichever variant this is: the bulk string's bytes or the
    /// null marker.
    pub fn encode(self) -> (r: Vec<u8>)
        ensures
            r@ == frame_enc(self@),
    {
        match self {
            RespBulkString::BulkString(b) => b.encode(),
            RespBulkString::NullBulkString(n) => n.encode(),
        }
    }
}

} // verus!
