//! The library-wide laws.
//!
//! Codec: every frame's encoding decodes back to exactly that frame,
//! consuming exactly the encoding's bytes, whatever follows it
//! ([`lemma_round_trip`]); and every strict prefix of an encoding is
//! reported as not complete, never as a value or an error
//! ([`lemma_prefix_incomplete`]).
//!
//! Store: the algebra of the set operations — idempotence of `sadd`,
//! absence means `sismember` is false, and operations on distinct keys
//! leave each other's sets untouched and commute.

use crate::backend::{set_members, spec_sadd, spec_sismember};
use crate::decode::{
    dec_val_seq, digits_seq, find_cr, parse_digits_header, parse_frame_spec, parse_literal,
    parse_elems_spec, ElemsOutcome, HeaderOutcome, ParseOutcome,
};
use crate::encode::{
    crlf, dec_u64, elems_enc, frame_enc, int_bytes, lemma_elems_enc_head, null_array_enc,
    null_bulk_enc,
};
use crate::frame::FrameView;
use vstd::prelude::*;

verus! {

broadcast use vstd::seq::group_seq_axioms;

/// Decimal digits are ASCII digits, and there is at least one.
proof fn lemma_dec_u64_digits(n: nat)
    ensures
        digits_seq(dec_u64(n)),
        dec_u64(n).len() >= 1,
    decreases n,
{
    if n >= 10 {
        lemma_dec_u64_digits(n / 10);
        assert(forall|k: int|
            0 <= k < dec_u64(n / 10).len() ==> 48 <= #[trigger] dec_u64(n / 10)[k] <= 57);
        assert(dec_u64(n) == dec_u64(n / 10) + seq![(48 + n % 10) as u8]);
    }
}

/// Reading the decimal digits of `n` gives back `n`.
proof fn lemma_dec_u64_val(n: nat)
    ensures
        dec_val_seq(dec_u64(n)) == n,
    decreases n,
{
    if n < 10 {
        assert(dec_u64(n) == seq![(48 + n) as u8]);
        assert(dec_u64(n).drop_last() =~= Seq::<u8>::empty());
        assert(dec_val_seq(Seq::<u8>::empty()) == 0);
        assert(dec_u64(n).last() == (48 + n) as u8);
        assert((48 + n) as u8 == 48 + n);
    } else {
        lemma_dec_u64_val(n / 10);
        assert(dec_u64(n) == dec_u64(n / 10) + seq![(48 + n % 10) as u8]);
        assert(dec_u64(n).drop_last() =~= dec_u64(n / 10));
        assert(dec_u64(n).last() == (48 + n % 10) as u8);
        assert((48 + n % 10) as u8 == 48 + n % 10);
        assert(n == (n / 10) * 10 + n % 10) by (nonlinear_arith);
    }
}

/// If no byte before `j` is a carriage return and `s[j]` is one, the scan
/// finds exactly `j`.
proof fn lemma_find_cr_at(s: Seq<u8>, from: nat, j: nat)
    requires
        from <= j < s.len(),
        s[j as int] == 13,
        forall|k: int| from <= k < j ==> s[k] != 13,
    ensures
        find_cr(s, from) == Option::Some(j),
    decreases j - from,
{
    if from < j {
        lemma_find_cr_at(s, from + 1, j);
    }
}

/// If no byte at or after `from` is a carriage return, the scan finds none.
proof fn lemma_find_cr_none(s: Seq<u8>, from: nat)
    requires
        forall|k: int| from <= k < s.len() ==> s[k] != 13,
    ensures
        find_cr(s, from) is None,
    decreases s.len() - from,
{
    if from < s.len() {
        lemma_find_cr_none(s, from + 1);
    }
}

/// A digit run followed by CRLF reads as its value, ending past the LF.
proof fn lemma_header_at(s: Seq<u8>, start: nat, ds: Seq<u8>)
    requires
        digits_seq(ds),
        ds.len() >= 1,
        start + ds.len() + 1 < s.len(),
        s.subrange(start as int, (start + ds.len()) as int) == ds,
        s[(start + ds.len()) as int] == 13,
        s[(start + ds.len() + 1) as int] == 10,
    ensures
        parse_digits_header(s, start) == HeaderOutcome::Found(
            dec_val_seq(ds),
            start + ds.len() + 2int,
        ),
{
    let j = (start + ds.len()) as nat;
    assert(forall|k: int|
        start <= k < j ==> s[k] == ds[k - start] && 48 <= #[trigger] s[k] <= 57);
    lemma_find_cr_at(s, start, j);
    assert(j != start);
    assert(s.subrange(start as int, j as int) == ds);
}

/// A strict prefix of a digit run with its CRLF reads as incomplete: the
/// prefix holds only digits, except possibly a final carriage return.
proof fn lemma_header_prefix(s: Seq<u8>, start: nat)
    requires
        start <= s.len(),
        forall|t: int|
            start <= t < s.len() ==> (48 <= #[trigger] s[t] <= 57 || (s[t] == 13 && t == s.len()
                - 1)),
    ensures
        parse_digits_header(s, start) is Incomplete,
{
    if s.len() > start && s[s.len() - 1] == 13 {
        lemma_find_cr_at(s, start, (s.len() - 1) as nat);
    } else {
        lemma_find_cr_none(s, start);
    }
}

/// The encoding of any frame is at least four bytes.
proof fn lemma_frame_enc_len(v: FrameView)
    ensures
        frame_enc(v).len() >= 4,
{
    match v {
        FrameView::Int(i) => {
            if i >= 0 {
                lemma_dec_u64_digits(i as nat);
            } else {
                lemma_dec_u64_digits((-(i as int)) as nat);
            }
        },
        FrameView::Bulk(b) => {
            lemma_dec_u64_digits(b.len());
        },
        FrameView::NullBulk => {},
        FrameView::Arr(es) => {
            lemma_dec_u64_digits(es.len());
        },
        FrameView::NullArr => {},
    }
}

/// Round trip: the encoding of any frame, followed by anything, reads back
/// as exactly that frame, occupying exactly the encoding's length.
pub proof fn lemma_round_trip(v: FrameView, rest: Seq<u8>)
    ensures
        parse_frame_spec(frame_enc(v) + rest) == ParseOutcome::Found(
            v,
            frame_enc(v).len() as int,
        ),
    decreases v, 0int,
{
    let e = frame_enc(v);
    let s = e + rest;
    lemma_frame_enc_len(v);
    match v {
        FrameView::Int(i) => {
            let m: nat = if i >= 0 {
                i as nat
            } else {
                (-(i as int)) as nat
            };
            let ds = dec_u64(m);
            lemma_dec_u64_digits(m);
            lemma_dec_u64_val(m);
            let start: nat = if i >= 0 {
                1
            } else {
                2
            };
            assert(e == seq![58u8] + int_bytes(i) + crlf());
            assert(s.subrange(start as int, (start + ds.len()) as int) =~= ds);
            assert(s[(start + ds.len()) as int] == 13);
            assert(s[(start + ds.len() + 1) as int] == 10);
            lemma_header_at(s, start, ds);
            if i >= 0 {
                assert(s[0] == 58);
                assert(s.len() >= 2 ==> s[1] != 45);
                assert(parse_frame_spec(s) == ParseOutcome::Found(v, e.len() as int));
            } else {
                assert(s[0] == 58 && s[1] == 45);
                assert((-(dec_val_seq(ds))) as i64 == i);
                assert(parse_frame_spec(s) == ParseOutcome::Found(v, e.len() as int));
            }
        },
        FrameView::Bulk(b) => {
            let ds = dec_u64(b.len());
            lemma_dec_u64_digits(b.len());
            lemma_dec_u64_val(b.len());
            let hdr = 1 + ds.len() + 2;
            assert(s[0] == 36);
            assert(s[1] == ds[0]);
            assert(s[1] != 45);
            assert(s.subrange(1, (1 + ds.len()) as int) =~= ds);
            assert(s[(1 + ds.len()) as int] == 13);
            assert(s[(1 + ds.len() + 1) as int] == 10);
            lemma_header_at(s, 1, ds);
            assert(s.len() >= hdr + b.len() + 2);
            assert(s.subrange(hdr as int, (hdr + b.len()) as int) =~= b);
            assert(s[(hdr + b.len()) as int] == 13);
            assert(s[(hdr + b.len() + 1) as int] == 10);
            assert(parse_frame_spec(s) == ParseOutcome::Found(v, e.len() as int));
        },
        FrameView::NullBulk => {
            assert(forall|k: int|
                0 <= k < s.len() && k < 5 ==> s[k] == null_bulk_enc()[k]);
            assert(s[0] == 36 && s[1] == 45);
            assert(parse_literal(s, null_bulk_enc(), FrameView::NullBulk) == ParseOutcome::Found(
                FrameView::NullBulk,
                5,
            ));
        },
        FrameView::Arr(es) => {
            let ds = dec_u64(es.len());
            lemma_dec_u64_digits(es.len());
            lemma_dec_u64_val(es.len());
            let hdr = 1 + ds.len() + 2;
            assert(s[0] == 42);
            assert(s[1] == ds[0]);
            assert(s[1] != 45);
            assert(s.subrange(1, (1 + ds.len()) as int) =~= ds);
            assert(s[(1 + ds.len()) as int] == 13);
            assert(s[(1 + ds.len() + 1) as int] == 10);
            lemma_header_at(s, 1, ds);
            assert(s.skip(hdr as int) =~= elems_enc(es) + rest);
            lemma_parse_elems(es, rest);
            assert(parse_frame_spec(s) == ParseOutcome::Found(v, e.len() as int));
        },
        FrameView::NullArr => {
            assert(forall|k: int|
                0 <= k < s.len() && k < 5 ==> s[k] == null_array_enc()[k]);
            assert(s[0] == 42 && s[1] == 45);
            assert(parse_literal(s, null_array_enc(), FrameView::NullArr) == ParseOutcome::Found(
                FrameView::NullArr,
                5,
            ));
        },
    }
}

/// The concatenated encodings of `es`, followed by anything, read back as
/// exactly those frames.
proof fn lemma_parse_elems(es: Seq<FrameView>, rest: Seq<u8>)
    ensures
        parse_elems_spec(elems_enc(es) + rest, es.len() as int) == ElemsOutcome::Found(
            es,
            elems_enc(es).len() as int,
        ),
    decreases es, 1int,
{
    let s = elems_enc(es) + rest;
    if es.len() == 0 {
        assert(parse_elems_spec(s, 0) == ElemsOutcome::Found(Seq::<FrameView>::empty(), 0));
        assert(es =~= Seq::<FrameView>::empty());
    } else {
        let e0 = es[0];
        let tail = es.drop_first();
        lemma_elems_enc_head(es);
        assert(s =~= frame_enc(e0) + (elems_enc(tail) + rest));
        lemma_round_trip(e0, elems_enc(tail) + rest);
        lemma_frame_enc_len(e0);
        let c = frame_enc(e0).len() as int;
        assert(1 <= c <= s.len());
        assert(s.skip(c) =~= elems_enc(tail) + rest);
        lemma_parse_elems(tail, rest);
        assert(parse_elems_spec(s, es.len() as int) == ElemsOutcome::Found(
            seq![e0] + tail,
            c + elems_enc(tail).len(),
        ));
        assert(seq![e0] + tail =~= es);
    }
}


/// Decoding a frame's exact encoding gives back that frame and consumes
/// the whole buffer.
pub proof fn lemma_encode_decode(v: FrameView)
    ensures
        parse_frame_spec(frame_enc(v)) == ParseOutcome::Found(v, frame_enc(v).len() as int),
{
    lemma_round_trip(v, Seq::empty());
    assert(frame_enc(v) + Seq::<u8>::empty() =~= frame_enc(v));
}

/// Incremental delivery: every strict prefix of a frame's encoding reads as
/// not complete — never as a value, never as malformed.
pub proof fn lemma_prefix_incomplete(v: FrameView, k: int)
    requires
        0 <= k < frame_enc(v).len(),
    ensures
        parse_frame_spec(frame_enc(v).take(k)) == ParseOutcome::Incomplete,
    decreases v, 0int,
{
    let e = frame_enc(v);
    let s = e.take(k);
    lemma_frame_enc_len(v);
    if k == 0 {
        assert(s.len() == 0);
    } else {
        match v {
            FrameView::Int(i) => {
                let m: nat = if i >= 0 {
                    i as nat
                } else {
                    (-(i as int)) as nat
                };
                let ds = dec_u64(m);
                lemma_dec_u64_digits(m);
                assert(e == seq![58u8] + int_bytes(i) + crlf());
                assert(s[0] == 58);
                let start: nat = if s.len() >= 2 && s[1] == 45 {
                    2
                } else {
                    1
                };
                if k <= start {
                    assert(parse_digits_header(s, start) is Incomplete);
                } else {
                    assert(forall|t: int|
                        start <= t < s.len() ==> (48 <= #[trigger] s[t] <= 57 || (s[t] == 13 && t
                            == s.len() - 1)));
                    lemma_header_prefix(s, start);
                }
            },
            FrameView::Bulk(b) => {
                let ds = dec_u64(b.len());
                lemma_dec_u64_digits(b.len());
                lemma_dec_u64_val(b.len());
                let hdr = 3 + ds.len() as int;
                assert(s[0] == 36);
                if k == 1 {
                } else {
                    assert(s[1] == ds[0]);
                    assert(s[1] != 45);
                    if k <= hdr - 1 {
                        assert(forall|t: int|
                            1 <= t < s.len() ==> (48 <= #[trigger] s[t] <= 57 || (s[t] == 13 && t
                                == s.len() - 1)));
                        lemma_header_prefix(s, 1);
                    } else {
                        assert(s.subrange(1, (1 + ds.len()) as int) =~= ds);
                        assert(s[(1 + ds.len()) as int] == 13);
                        assert(s[(1 + ds.len() + 1) as int] == 10);
                        lemma_header_at(s, 1, ds);
                        assert(s.len() < hdr + b.len() + 2);
                    }
                }
            },
            FrameView::NullBulk => {
                assert(forall|t: int|
                    0 <= t < s.len() && t < 5 ==> s[t] == null_bulk_enc()[t]);
                assert(s.len() < 5);
                if k == 1 {
                } else {
                    assert(s[0] == 36 && s[1] == 45);
                }
            },
            FrameView::Arr(es) => {
                let ds = dec_u64(es.len());
                lemma_dec_u64_digits(es.len());
                lemma_dec_u64_val(es.len());
                let hdr = 3 + ds.len() as int;
                assert(s[0] == 42);
                if k == 1 {
                } else {
                    assert(s[1] == ds[0]);
                    assert(s[1] != 45);
                    if k <= hdr - 1 {
                        assert(forall|t: int|
                            1 <= t < s.len() ==> (48 <= #[trigger] s[t] <= 57 || (s[t] == 13 && t
                                == s.len() - 1)));
                        lemma_header_prefix(s, 1);
                    } else {
                        assert(s.subrange(1, (1 + ds.len()) as int) =~= ds);
                        assert(s[(1 + ds.len()) as int] == 13);
                        assert(s[(1 + ds.len() + 1) as int] == 10);
                        lemma_header_at(s, 1, ds);
                        assert(s.skip(hdr) =~= elems_enc(es).take(k - hdr));
                        lemma_parse_elems_prefix(es, k - hdr);
                    }
                }
            },
            FrameView::NullArr => {
                assert(forall|t: int|
                    0 <= t < s.len() && t < 5 ==> s[t] == null_array_enc()[t]);
                assert(s.len() < 5);
                if k == 1 {
                } else {
                    assert(s[0] == 42 && s[1] == 45);
                }
            },
        }
    }
}

/// A strict prefix of the concatenated encodings reads as not complete.
proof fn lemma_parse_elems_prefix(es: Seq<FrameView>, k: int)
    requires
        0 <= k < elems_enc(es).len(),
    ensures
        parse_elems_spec(elems_enc(es).take(k), es.len() as int) == ElemsOutcome::Incomplete,
    decreases es, 1int,
{
    assert(es.len() > 0);
    let e0 = es[0];
    let tail = es.drop_first();
    lemma_elems_enc_head(es);
    lemma_frame_enc_len(e0);
    let l0 = frame_enc(e0).len() as int;
    let s = elems_enc(es).take(k);
    if k < l0 {
        assert(s =~= frame_enc(e0).take(k));
        lemma_prefix_incomplete(e0, k);
    } else {
        assert(s =~= frame_enc(e0) + elems_enc(tail).take(k - l0));
        lemma_round_trip(e0, elems_enc(tail).take(k - l0));
        assert(s.skip(l0) =~= elems_enc(tail).take(k - l0));
        lemma_parse_elems_prefix(tail, k - l0);
    }
}

/// Adding a member makes it a member; the first addition of an absent
/// member answers true, and adding it again answers false while keeping it
/// a member.
pub proof fn lemma_sadd_idempotent(m: Map<Seq<char>, Set<Seq<char>>>, k: Seq<char>, mem: Seq<char>)
    ensures
        spec_sadd(m, k, mem).1 == !set_members(m, k).contains(mem),
        spec_sismember(spec_sadd(m, k, mem).0, k, mem),
        !spec_sadd(spec_sadd(m, k, mem).0, k, mem).1,
        spec_sismember(spec_sadd(spec_sadd(m, k, mem).0, k, mem).0, k, mem),
{
}

/// Membership in an absent key, or of an absent member, is false.
pub proof fn lemma_sismember_absent(
    m: Map<Seq<char>, Set<Seq<char>>>,
    k: Seq<char>,
    mem: Seq<char>,
)
    ensures
        !m.contains_key(k) ==> !spec_sismember(m, k, mem),
        m.contains_key(k) && !m[k].contains(mem) ==> !spec_sismember(m, k, mem),
{
}

/// Per-key isolation: an addition under one key never changes another
/// key's set, its answer is unaffected by additions under other keys, and
/// additions under distinct keys commute — no update is lost.
pub proof fn lemma_sadd_per_key(
    m: Map<Seq<char>, Set<Seq<char>>>,
    k1: Seq<char>,
    m1: Seq<char>,
    k2: Seq<char>,
    m2: Seq<char>,
)
    requires
        k1 != k2,
    ensures
        set_members(spec_sadd(m, k2, m2).0, k1) == set_members(m, k1),
        spec_sadd(spec_sadd(m, k2, m2).0, k1, m1).1 == spec_sadd(m, k1, m1).1,
        spec_sadd(spec_sadd(m, k1, m1).0, k2, m2).0 == spec_sadd(spec_sadd(m, k2, m2).0, k1, m1).0,
{
    assert(spec_sadd(spec_sadd(m, k1, m1).0, k2, m2).0 =~= spec_sadd(
        spec_sadd(m, k2, m2).0,
        k1,
        m1,
    ).0);
}

} // verus!
