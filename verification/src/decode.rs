//! Byte-exact decoding of frames.
//!
//! [`parse_frame_spec`] states, for every byte sequence, whether its front
//! holds a whole frame (and which, and how many bytes it occupies), not yet
//! enough bytes, or a malformed frame. The executable decoder is proved to
//! agree with it exactly, and the round-trip laws connect it to
//! [`crate::encode::frame_enc`].

use crate::buffer::{buf_advance, buf_bytes, buf_to_vec};
use crate::encode::{null_array_enc, null_bulk_enc};
use crate::frame::{
    frames_view, BulkString, FrameView, NullBulkString, RespError, RespFrame, RespNullArray,
};
use vstd::prelude::*;

verus! {

broadcast use vstd::std_specs::vec::group_vec_axioms, vstd::seq::group_seq_axioms;

/// The outcome of reading one frame from the front of a byte sequence.
#[verifier::ext_equal]
pub enum ParseOutcome {
    /// A whole frame with the given value occupies exactly the given number
    /// of bytes at the front.
    Found(FrameView, int),
    /// The bytes are a prefix that needs more input before a frame can be
    /// read or rejected.
    Incomplete,
    /// The front of the sequence is not a well-formed frame.
    Malformed,
}

/// The outcome of reading a run of consecutive frames.
#[verifier::ext_equal]
pub enum ElemsOutcome {
    Found(Seq<FrameView>, int),
    Incomplete,
    Malformed,
}

/// The index of the first carriage return at or after `i`, if any.
pub open spec fn find_cr(s: Seq<u8>, i: nat) -> Option<nat>
    decreases s.len() - i,
{
    if i >= s.len() {
        None
    } else if s[i as int] == 13 {
        Some(i)
    } else {
        find_cr(s, i + 1)
    }
}

/// Every byte is an ASCII decimal digit.
pub open spec fn digits_seq(ds: Seq<u8>) -> bool {
    forall|k: int| 0 <= k < ds.len() ==> 48 <= #[trigger] ds[k] <= 57
}

/// The value of a run of decimal digits, most significant first.
pub open spec fn dec_val_seq(ds: Seq<u8>) -> int
    decreases ds.len(),
{
    if ds.len() == 0 {
        0
    } else {
        dec_val_seq(ds.drop_last()) * 10 + (ds.last() - 48)
    }
}

/// The outcome of reading `<digits>CRLF` starting at `start`: the digits'
/// value and the index just past the LF.
#[verifier::ext_equal]
pub enum HeaderOutcome {
    Found(int, int),
    Incomplete,
    Malformed,
}

/// Reads a decimal length or count field: digits from `start` up to the
/// first CRLF. No CR yet, or a CR as the last byte, means more input is
/// needed; a CR not followed by LF, an empty digit run, or a non-digit
/// byte before the CR is malformed.
pub open spec fn parse_digits_header(s: Seq<u8>, start: nat) -> HeaderOutcome {
    match find_cr(s, start) {
        Option::None => HeaderOutcome::Incomplete,
        Option::Some(j) => {
            if j + 1 >= s.len() {
                HeaderOutcome::Incomplete
            } else if s[j as int + 1] != 10 {
                HeaderOutcome::Malformed
            } else if j == start || !digits_seq(s.subrange(start as int, j as int)) {
                HeaderOutcome::Malformed
            } else {
                HeaderOutcome::Found(dec_val_seq(s.subrange(start as int, j as int)), j as int + 2)
            }
        },
    }
}

/// Matches the five-byte literal of a null marker: a conflicting byte is
/// malformed, a strict agreeing prefix needs more input.
pub open spec fn parse_literal(s: Seq<u8>, lit: Seq<u8>, v: FrameView) -> ParseOutcome {
    if exists|k: int| 0 <= k < s.len() && k < lit.len() && s[k] != lit[k] {
        ParseOutcome::Malformed
    } else if s.len() < lit.len() {
        ParseOutcome::Incomplete
    } else {
        ParseOutcome::Found(v, lit.len() as int)
    }
}

/// Reads an integer frame: `:`, an optional minus sign, digits, CRLF.
/// The value must fit in a signed 64-bit integer.
pub open spec fn parse_int_spec(s: Seq<u8>) -> ParseOutcome {
    let neg = s.len() >= 2 && s[1] == 45;
    let start: nat = if neg { 2 } else { 1 };
    match parse_digits_header(s, start) {
        HeaderOutcome::Found(v, end) => {
            if neg {
                if v > 0x8000_0000_0000_0000 {
                    ParseOutcome::Malformed
                } else {
                    ParseOutcome::Found(FrameView::Int((-v) as i64), end)
                }
            } else {
                if v > 0x7fff_ffff_ffff_ffff {
                    ParseOutcome::Malformed
                } else {
                    ParseOutcome::Found(FrameView::Int(v as i64), end)
                }
            }
        },
        HeaderOutcome::Incomplete => ParseOutcome::Incomplete,
        HeaderOutcome::Malformed => ParseOutcome::Malformed,
    }
}

/// Reads a plain bulk string frame: `$`, a decimal length, CRLF, that many
/// payload bytes, CRLF.
pub open spec fn parse_bulk_spec(s: Seq<u8>) -> ParseOutcome {
    if s.len() == 0 {
        ParseOutcome::Incomplete
    } else if s[0] != 36 {
        ParseOutcome::Malformed
    } else {
        match parse_digits_header(s, 1) {
            HeaderOutcome::Found(v, end) => {
                if s.len() < end + v + 2 {
                    ParseOutcome::Incomplete
                } else if s[end + v] != 13 || s[end + v + 1] != 10 {
                    ParseOutcome::Malformed
                } else {
                    ParseOutcome::Found(FrameView::Bulk(s.subrange(end, end + v)), end + v + 2)
                }
            },
            HeaderOutcome::Incomplete => ParseOutcome::Incomplete,
            HeaderOutcome::Malformed => ParseOutcome::Malformed,
        }
    }
}

/// Reads one frame from the front of `s`, dispatching on the first byte:
/// `:` integer, `$` bulk string or its null marker, `*` array or its null
/// marker. Any other first byte is malformed.
pub open spec fn parse_frame_spec(s: Seq<u8>) -> ParseOutcome
    decreases s.len(), 0int,
{
    if s.len() == 0 {
        ParseOutcome::Incomplete
    } else if s[0] == 58 {
        parse_int_spec(s)
    } else if s[0] == 36 {
        if s.len() < 2 {
            ParseOutcome::Incomplete
        } else if s[1] == 45 {
            parse_literal(s, null_bulk_enc(), FrameView::NullBulk)
        } else {
            parse_bulk_spec(s)
        }
    } else if s[0] == 42 {
        if s.len() < 2 {
            ParseOutcome::Incomplete
        } else if s[1] == 45 {
            parse_literal(s, null_array_enc(), FrameView::NullArr)
        } else {
            match parse_digits_header(s, 1) {
                HeaderOutcome::Found(n, hdr) => {
                    if hdr < 1 || hdr > s.len() || n < 0 {
                        // a digits header always lands in this range; the
                        // test keeps the recursion visibly bounded
                        ParseOutcome::Malformed
                    } else {
                        match parse_elems_spec(s.skip(hdr), n) {
                            ElemsOutcome::Found(vs, c) => ParseOutcome::Found(
                                FrameView::Arr(vs),
                                hdr + c,
                            ),
                            ElemsOutcome::Incomplete => ParseOutcome::Incomplete,
                            ElemsOutcome::Malformed => ParseOutcome::Malformed,
                        }
                    }
                },
                HeaderOutcome::Incomplete => ParseOutcome::Incomplete,
                HeaderOutcome::Malformed => ParseOutcome::Malformed,
            }
        }
    } else {
        ParseOutcome::Malformed
    }
}

/// Reads `n` consecutive frames from the front of `s`.
pub open spec fn parse_elems_spec(s: Seq<u8>, n: int) -> ElemsOutcome
    decreases s.len(), n + 1,
{
    if n <= 0 {
        ElemsOutcome::Found(Seq::empty(), 0)
    } else {
        match parse_frame_spec(s) {
            ParseOutcome::Found(v, c) => {
                if c < 1 || c > s.len() {
                    // a found frame always occupies between one byte and the
                    // whole sequence; the test keeps the recursion visibly
                    // bounded
                    ElemsOutcome::Malformed
                } else {
                    match parse_elems_spec(s.skip(c), n - 1) {
                        ElemsOutcome::Found(vs, c2) => ElemsOutcome::Found(
                            seq![v] + vs,
                            c + c2,
                        ),
                        ElemsOutcome::Incomplete => ElemsOutcome::Incomplete,
                        ElemsOutcome::Malformed => ElemsOutcome::Malformed,
                    }
                }
            },
            ParseOutcome::Incomplete => ElemsOutcome::Incomplete,
            ParseOutcome::Malformed => ElemsOutcome::Malformed,
        }
    }
}

/// Once a run of digits is extended by further digits, its value only grows.
proof fn lemma_dec_val_mono(s: Seq<u8>, k: int)
    requires
        0 <= k <= s.len(),
        digits_seq(s),
    ensures
        dec_val_seq(s) >= dec_val_seq(s.take(k)),
        dec_val_seq(s) >= 0,
    decreases s.len(),
{
    if s.len() == 0 {
        assert(s.take(k) =~= s);
    } else {
        assert(digits_seq(s.drop_last()));
        lemma_dec_val_mono(s.drop_last(), if k <= s.len() - 1 { k } else { s.len() - 1 });
        if k == s.len() {
            assert(s.take(k) =~= s);
        } else {
            assert(s.drop_last().take(k) =~= s.take(k));
        }
    }
}

/// The exec result of reading a run of digits.
enum Digits {
    Val(u64),
    Huge,
    Bad,
}

/// Reads the digit run `d[from..to]`, reporting its value, that the value
/// exceeds `u64`, or that some byte is not a digit.
fn read_digits(d: &[u8], from: usize, to: usize) -> (r: Digits)
    requires
        from <= to <= d@.len(),
    ensures
        ({
            let ds = d@.subrange(from as int, to as int);
            match r {
                Digits::Val(v) => digits_seq(ds) && dec_val_seq(ds) == v as int,
                Digits::Huge => digits_seq(ds) && dec_val_seq(ds) > u64::MAX as int,
                Digits::Bad => !digits_seq(ds),
            }
        }),
{
    let ghost ds = d@.subrange(from as int, to as int);
    let mut i: usize = from;
    while i < to
        invariant
            from <= i <= to <= d@.len(),
            ds == d@.subrange(from as int, to as int),
            forall|k: int| 0 <= k < i - from ==> 48 <= #[trigger] ds[k] <= 57,
        decreases to - i,
    {
        let b = d[i];
        if b < 48 || b > 57 {
            proof {
                assert(ds[i - from] == d@[i as int]);
                assert(!(48 <= ds[i - from] <= 57));
            }
            return Digits::Bad;
        }
        i = i + 1;
    }
    proof {
        assert(digits_seq(ds));
    }
    let mut acc: u64 = 0;
    i = from;
    while i < to
        invariant
            from <= i <= to <= d@.len(),
            ds == d@.subrange(from as int, to as int),
            digits_seq(ds),
            acc as int == dec_val_seq(ds.take(i - from)),
        decreases to - i,
    {
        proof {
            assert(ds[i - from] == d@[i as int]);
            assert(ds.take(i - from + 1).drop_last() =~= ds.take(i - from));
            assert(ds.take(i - from + 1).last() == ds[i - from]);
        }
        let dgt = d[i] - 48;
        if acc > 1844674407370955161u64 || (acc == 1844674407370955161u64 && dgt >= 6) {
            proof {
                assert(dec_val_seq(ds.take(i - from + 1)) > u64::MAX as int);
                lemma_dec_val_mono(ds, i - from + 1);
                assert(dec_val_seq(ds) >= dec_val_seq(ds.take(i - from + 1)));
            }
            return Digits::Huge;
        }
        acc = acc * 10 + (dgt as u64);
        i = i + 1;
    }
    proof {
        assert(ds.take(to - from) =~= ds);
    }
    Digits::Val(acc)
}

/// The index of the first carriage return at or after `from`, if any.
fn find_cr_exec(d: &[u8], from: usize) -> (r: Option<usize>)
    requires
        from <= d@.len(),
    ensures
        match r {
            Option::Some(j) => find_cr(d@, from as nat) == Option::Some(j as nat) && from <= j
                < d@.len(),
            Option::None => find_cr(d@, from as nat) is None,
        },
{
    let mut i: usize = from;
    while i < d.len()
        invariant
            from <= i <= d@.len(),
            find_cr(d@, from as nat) == find_cr(d@, i as nat),
        decreases d@.len() - i,
    {
        if d[i] == 13 {
            return Some(i);
        }
        i = i + 1;
    }
    None
}

/// The exec result of reading a `<digits>CRLF` field.
enum Header {
    Num(u64, usize),
    Huge(usize),
    More,
    Bad,
}

/// Reads the decimal field starting at `start`, as [`parse_digits_header`]
/// states it.
fn read_header(d: &[u8], start: usize) -> (r: Header)
    requires
        start <= d@.len(),
    ensures
        match r {
            Header::Num(v, end) => parse_digits_header(d@, start as nat) == HeaderOutcome::Found(
                v as int,
                end as int,
            ) && start + 2 < end <= d@.len(),
            Header::Huge(end) => (match parse_digits_header(d@, start as nat) {
                HeaderOutcome::Found(v, e) => v > u64::MAX as int && e == end as int && start + 2
                    < end <= d@.len(),
                _ => false,
            }),
            Header::More => parse_digits_header(d@, start as nat) is Incomplete,
            Header::Bad => parse_digits_header(d@, start as nat) is Malformed,
        },
{
    match find_cr_exec(d, start) {
        None => Header::More,
        Some(j) => {
            if j >= d.len() - 1 {
                Header::More
            } else if d[j + 1] != 10 {
                Header::Bad
            } else if j == start {
                Header::Bad
            } else {
                match read_digits(d, start, j) {
                    Digits::Bad => Header::Bad,
                    Digits::Huge => Header::Huge(j + 2),
                    Digits::Val(v) => Header::Num(v, j + 2),
                }
            }
        },
    }
}

/// Copies `d[from..to]` into a fresh vector.
fn copy_range(d: &[u8], from: usize, to: usize) -> (r: Vec<u8>)
    requires
        from <= to <= d@.len(),
    ensures
        r@ == d@.subrange(from as int, to as int),
{
    let mut r: Vec<u8> = Vec::new();
    let mut i: usize = from;
    while i < to
        invariant
            from <= i <= to <= d@.len(),
            r@ == d@.subrange(from as int, i as int),
        decreases to - i,
    {
        r.push(d[i]);
        proof {
            assert(d@.subrange(from as int, i as int + 1) =~= d@.subrange(
                from as int,
                i as int,
            ).push(d@[i as int]));
        }
        i = i + 1;
    }
    r
}

/// Exact agreement of an exec decode result with the spec-level outcome on
/// the byte sequence `s`.
pub open spec fn parse_agree(s: Seq<u8>, r: Result<(RespFrame, usize), RespError>) -> bool {
    match parse_frame_spec(s) {
        ParseOutcome::Found(v, n) => match r {
            Result::Ok((f, c)) => f@ == v && c as int == n && 1 <= n <= s.len(),
            Result::Err(_) => false,
        },
        ParseOutcome::Incomplete => r == Result::<(RespFrame, usize), RespError>::Err(
            RespError::NotComplete,
        ),
        ParseOutcome::Malformed => r == Result::<(RespFrame, usize), RespError>::Err(
            RespError::InvalidFrame,
        ),
    }
}

/// Reads a plain bulk string from the front of `d`, as [`parse_bulk_spec`]
/// states it.
fn parse_bulk_exec(d: &[u8]) -> (r: Result<(BulkString, usize), RespError>)
    ensures
        match parse_bulk_spec(d@) {
            ParseOutcome::Found(v, n) => match r {
                Result::Ok((bs, c)) => FrameView::Bulk(bs@) == v && c as int == n && 1 <= n
                    <= d@.len(),
                Result::Err(_) => false,
            },
            ParseOutcome::Incomplete => r == Result::<(BulkString, usize), RespError>::Err(
                RespError::NotComplete,
            ),
            ParseOutcome::Malformed => r == Result::<(BulkString, usize), RespError>::Err(
                RespError::InvalidFrame,
            ),
        },
{
    if d.len() == 0 {
        return Err(RespError::NotComplete);
    }
    if d[0] != 36 {
        return Err(RespError::InvalidFrame);
    }
    match read_header(d, 1) {
        Header::More => Err(RespError::NotComplete),
        Header::Bad => Err(RespError::InvalidFrame),
        Header::Huge(_end) => {
            proof {
                assert(usize::MAX as int <= u64::MAX as int);
            }
            Err(RespError::NotComplete)
        },
        Header::Num(lv, end) => {
            let avail = d.len() - end;
            if avail < 2 || ((avail - 2) as u64) < lv {
                return Err(RespError::NotComplete);
            }
            let blen = lv as usize;
            let pend = end + blen;
            if d[pend] != 13 {
                return Err(RespError::InvalidFrame);
            }
            if d[pend + 1] != 10 {
                return Err(RespError::InvalidFrame);
            }
            let payload = copy_range(d, end, pend);
            Ok((BulkString(payload), pend + 2))
        },
    }
}


/// Matches a five-byte literal at the front of `d`: five matching bytes
/// succeed, a conflicting byte within the first five is malformed, a strict
/// agreeing prefix needs more input.
fn match_lit5(d: &[u8], b0: u8, b1: u8, b2: u8, b3: u8, b4: u8, Ghost(lit): Ghost<Seq<u8>>) -> (r:
    Result<usize, RespError>)
    requires
        lit == seq![b0, b1, b2, b3, b4],
    ensures
        match r {
            Result::Ok(c) => c == 5 && d@.len() >= 5 && (forall|k: int|
                0 <= k < 5 ==> d@[k] == lit[k]),
            Result::Err(RespError::NotComplete) => d@.len() < 5 && (forall|k: int|
                0 <= k < d@.len() ==> d@[k] == lit[k]),
            Result::Err(RespError::InvalidFrame) => exists|k: int|
                0 <= k < d@.len() && k < 5 && #[trigger] d@[k] != lit[k],
        },
{
    if d.len() >= 1 && d[0] != b0 {
        proof {
            assert(d@[0] != lit[0]);
        }
        return Err(RespError::InvalidFrame);
    }
    if d.len() >= 2 && d[1] != b1 {
        proof {
            assert(d@[1] != lit[1]);
        }
        return Err(RespError::InvalidFrame);
    }
    if d.len() >= 3 && d[2] != b2 {
        proof {
            assert(d@[2] != lit[2]);
        }
        return Err(RespError::InvalidFrame);
    }
    if d.len() >= 4 && d[3] != b3 {
        proof {
            assert(d@[3] != lit[3]);
        }
        return Err(RespError::InvalidFrame);
    }
    if d.len() >= 5 && d[4] != b4 {
        proof {
            assert(d@[4] != lit[4]);
        }
        return Err(RespError::InvalidFrame);
    }
    if d.len() < 5 {
        return Err(RespError::NotComplete);
    }
    Ok(5)
}

/// Reads one frame from the front of `d`, as [`parse_frame_spec`] states it.
#[verifier::loop_isolation(false)]
pub fn parse_frame_exec(d: &[u8]) -> (r: Result<(RespFrame, usize), RespError>)
    ensures
        parse_agree(d@, r),
    decreases d@.len(), 1int,
{
    if d.len() == 0 {
        return Err(RespError::NotComplete);
    }
    let b0 = d[0];
    if b0 == 58 {
        let neg = d.len() >= 2 && d[1] == 45;
        let start: usize = if neg {
            2
        } else {
            1
        };
        match read_header(d, start) {
            Header::More => Err(RespError::NotComplete),
            Header::Bad => Err(RespError::InvalidFrame),
            Header::Huge(_e) => Err(RespError::InvalidFrame),
            Header::Num(v, end) => {
                if neg {
                    if v > 0x8000_0000_0000_0000u64 {
                        Err(RespError::InvalidFrame)
                    } else {
                        let iv: i64 = if v == 0x8000_0000_0000_0000u64 {
                            i64::MIN
                        } else {
                            0i64 - (v as i64)
                        };
                        Ok((RespFrame::Integer(iv), end))
                    }
                } else {
                    if v > 0x7fff_ffff_ffff_ffffu64 {
                        Err(RespError::InvalidFrame)
                    } else {
                        Ok((RespFrame::Integer(v as i64), end))
                    }
                }
            },
        }
    } else if b0 == 36 {
        if d.len() < 2 {
            return Err(RespError::NotComplete);
        }
        if d[1] == 45 {
            match match_lit5(d, 36, 45, 49, 13, 10, Ghost(null_bulk_enc())) {
                Ok(c) => Ok((RespFrame::NullBulkString(NullBulkString), c)),
                Err(e) => Err(e),
            }
        } else {
            match parse_bulk_exec(d) {
                Ok((bs, c)) => Ok((RespFrame::BulkString(bs), c)),
                Err(e) => Err(e),
            }
        }
    } else if b0 == 42 {
        if d.len() < 2 {
            return Err(RespError::NotComplete);
        }
        if d[1] == 45 {
            match match_lit5(d, 42, 45, 49, 13, 10, Ghost(null_array_enc())) {
                Ok(c) => Ok((RespFrame::NullArray(RespNullArray), c)),
                Err(e) => Err(e),
            }
        } else {
            match read_header(d, 1) {
                Header::More => Err(RespError::NotComplete),
                Header::Bad => Err(RespError::InvalidFrame),
                Header::Num(nval, hdr) => parse_array_tail(d, hdr, nval, false),
                Header::Huge(hdr) => parse_array_tail(d, hdr, 0, true),
            }
        }
    } else {
        Err(RespError::InvalidFrame)
    }
}

/// Reads the elements of an array frame whose count field has been read:
/// `hdr` is the index just past the header's LF.
#[verifier::loop_isolation(false)]
fn parse_array_tail(d: &[u8], hdr: usize, nval: u64, huge: bool) -> (r: Result<
    (RespFrame, usize),
    RespError,
>)
    requires
        d@.len() >= 2,
        d@[0] == 42,
        d@[1] != 45,
        4 <= hdr <= d@.len(),
        match parse_digits_header(d@, 1) {
            HeaderOutcome::Found(v, e) => e == hdr as int && v >= 0 && (if huge {
                v > u64::MAX as int
            } else {
                v == nval as int
            }),
            _ => false,
        },
    ensures
        parse_agree(d@, r),
    decreases d@.len(), 0int,
{
    let ghost n_spec: int = match parse_digits_header(d@, 1) {
        HeaderOutcome::Found(v, _) => v,
        _ => 0,
    };
    proof {
        assert(usize::MAX as int <= u64::MAX as int);
    }
    let mut elems: Vec<RespFrame> = Vec::new();
    let mut cur: usize = hdr;
    let mut done: u64 = 0;
    loop
        invariant
            hdr <= cur <= d@.len(),
            done as int <= cur - hdr,
            done as int <= n_spec,
            elems@.len() == done as int,
            (parse_elems_spec(d@.skip(cur as int), n_spec - done as int) matches
                ElemsOutcome::Found(vs, c) ==> parse_elems_spec(d@.skip(hdr as int), n_spec)
                == ElemsOutcome::Found(frames_view(elems@) + vs, cur - hdr + c)),
            (parse_elems_spec(d@.skip(cur as int), n_spec - done as int) is Incomplete
                ==> parse_elems_spec(d@.skip(hdr as int), n_spec) is Incomplete),
            (parse_elems_spec(d@.skip(cur as int), n_spec - done as int) is Malformed
                ==> parse_elems_spec(d@.skip(hdr as int), n_spec) is Malformed),
        decreases d@.len() - cur,
    {
        if !huge && done == nval {
            proof {
                let s0 = d@.skip(hdr as int);
                let scur = d@.skip(cur as int);
                assert(parse_elems_spec(scur, 0) == ElemsOutcome::Found(
                    Seq::<FrameView>::empty(),
                    0,
                ));
                assert(frames_view(elems@) + Seq::<FrameView>::empty() =~= frames_view(elems@));
                assert(parse_elems_spec(s0, n_spec) == ElemsOutcome::Found(
                    frames_view(elems@),
                    cur - hdr,
                ));
                assert(parse_frame_spec(d@) == ParseOutcome::Found(
                    FrameView::Arr(frames_view(elems@)),
                    cur as int,
                ));
            }
            return Ok((RespFrame::Array(elems), cur));
        }
        proof {
            assert(n_spec - done as int > 0);
        }
        let sub = &d[cur..d.len()];
        proof {
            assert(sub@ =~= d@.skip(cur as int));
        }
        match parse_frame_exec(sub) {
            Err(e) => {
                proof {
                    let scur = d@.skip(cur as int);
                    assert(parse_elems_spec(scur, n_spec - done as int) == (match parse_frame_spec(
                        scur,
                    ) {
                        ParseOutcome::Found(v, c) => parse_elems_spec(scur, n_spec - done as int),
                        ParseOutcome::Incomplete => ElemsOutcome::Incomplete,
                        ParseOutcome::Malformed => ElemsOutcome::Malformed,
                    }));
                }
                return Err(e);
            },
            Ok((f, c)) => {
                proof {
                    let scur = d@.skip(cur as int);
                    let rem = n_spec - done as int;
                    assert(parse_frame_spec(scur) == ParseOutcome::Found(f@, c as int));
                    assert(1 <= c as int <= scur.len());
                    assert(scur.skip(c as int) =~= d@.skip(cur as int + c as int));
                    assert(frames_view(elems@.push(f)) =~= frames_view(elems@).push(f@));
                    let rest2 = parse_elems_spec(d@.skip(cur as int + c as int), rem - 1);
                    match rest2 {
                        ElemsOutcome::Found(vs2, c2) => {
                            assert(parse_elems_spec(scur, rem) == ElemsOutcome::Found(
                                seq![f@] + vs2,
                                c as int + c2,
                            ));
                            assert(frames_view(elems@) + (seq![f@] + vs2) =~= frames_view(
                                elems@.push(f),
                            ) + vs2);
                            assert(ElemsOutcome::Found(
                                frames_view(elems@) + (seq![f@] + vs2),
                                (cur - hdr) + (c as int + c2),
                            ) =~= ElemsOutcome::Found(
                                frames_view(elems@.push(f)) + vs2,
                                ((cur + c) - hdr) + c2,
                            ));
                        },
                        ElemsOutcome::Incomplete => {
                            assert(parse_elems_spec(scur, rem) is Incomplete);
                        },
                        ElemsOutcome::Malformed => {
                            assert(parse_elems_spec(scur, rem) is Malformed);
                        },
                    }
                }
                elems.push(f);
                cur = cur + c;
                done = done + 1;
            },
        }
    }
}


impl RespFrame {
    /// Decodes the next frame from the front of the buffer. On success the
    /// frame's exact encoding is consumed; on `NotComplete` (more input
    /// needed) or `InvalidFrame` (malformed input) the buffer is untouched.
    pub fn decode(buf: &mut bytes::BytesMut) -> (r: Result<RespFrame, RespError>)
        ensures
            match parse_frame_spec(buf_bytes(*old(buf))) {
                ParseOutcome::Found(v, n) => (match r {
                    Result::Ok(f) => f@ == v,
                    Result::Err(_) => false,
                }) && buf_bytes(*final(buf)) == buf_bytes(*old(buf)).skip(n),
                ParseOutcome::Incomplete => r == Result::<RespFrame, RespError>::Err(
                    RespError::NotComplete,
                ) && buf_bytes(*final(buf)) == buf_bytes(*old(buf)),
                ParseOutcome::Malformed => r == Result::<RespFrame, RespError>::Err(
                    RespError::InvalidFrame,
                ) && buf_bytes(*final(buf)) == buf_bytes(*old(buf)),
            },
    {
        let data = buf_to_vec(buf);
        match parse_frame_exec(data.as_slice()) {
            Ok((f, c)) => {
                buf_advance(buf, c);
                Ok(f)
            },
            Err(e) => Err(e),
        }
    }

    /// The number of bytes the whole frame at the front of `buf` occupies,
    /// once it is completely present; `NotComplete` or `InvalidFrame`
    /// otherwise. The buffer is not consumed.
    pub fn expect_length(buf: &[u8]) -> (r: Result<usize, RespError>)
        ensures
            match parse_frame_spec(buf@) {
                ParseOutcome::Found(v, n) => r == Result::<usize, RespError>::Ok(n as usize),
                ParseOutcome::Incomplete => r == Result::<usize, RespError>::Err(
                    RespError::NotComplete,
                ),
                ParseOutcome::Malformed => r == Result::<usize, RespError>::Err(
                    RespError::InvalidFrame,
                ),
            },
    {
        match parse_frame_exec(buf) {
            Ok((_f, c)) => Ok(c),
            Err(e) => Err(e),
        }
    }
}

impl BulkString {
    /// Decodes a plain bulk string from the front of the buffer, consuming
    /// its exact encoding on success and leaving the buffer untouched
    /// otherwise.
    pub fn decode(buf: &mut bytes::BytesMut) -> (r: Result<BulkString, RespError>)
        ensures
            match parse_bulk_spec(buf_bytes(*old(buf))) {
                ParseOutcome::Found(v, n) => (match r {
                    Result::Ok(bs) => FrameView::Bulk(bs@) == v,
                    Result::Err(_) => false,
                }) && buf_bytes(*final(buf)) == buf_bytes(*old(buf)).skip(n),
                ParseOutcome::Incomplete => r == Result::<BulkString, RespError>::Err(
                    RespError::NotComplete,
                ) && buf_bytes(*final(buf)) == buf_bytes(*old(buf)),
                ParseOutcome::Malformed => r == Result::<BulkString, RespError>::Err(
                    RespError::InvalidFrame,
                ) && buf_bytes(*final(buf)) == buf_bytes(*old(buf)),
            },
    {
        let data = buf_to_vec(buf);
        match parse_bulk_exec(data.as_slice()) {
            Ok((bs, c)) => {
                buf_advance(buf, c);
                Ok(bs)
            },
            Err(e) => Err(e),
        }
    }

    /// The total byte count of the bulk string at the front of `buf`,
    /// computed from its length field alone: header bytes, payload length
    /// and both terminators. The payload itself need not be present yet.
    pub fn expect_length(buf: &[u8]) -> (r: Result<usize, RespError>)
        ensures
            ({
                if buf@.len() >= 1 && buf@[0] != 36 {
                    r == Result::<usize, RespError>::Err(RespError::InvalidFrame)
                } else {
                    match parse_digits_header(buf@, 1) {
                        HeaderOutcome::Found(v, end) => {
                            if end + v + 2 <= usize::MAX as int {
                                r == Result::<usize, RespError>::Ok((end + v + 2) as usize)
                            } else {
                                r == Result::<usize, RespError>::Err(RespError::NotComplete)
                            }
                        },
                        HeaderOutcome::Incomplete => r == Result::<usize, RespError>::Err(
                            RespError::NotComplete,
                        ),
                        HeaderOutcome::Malformed => r == Result::<usize, RespError>::Err(
                            RespError::InvalidFrame,
                        ),
                    }
                }
            }),
    {
        if buf.len() == 0 {
            return Err(RespError::NotComplete);
        }
        if buf[0] != 36 {
            return Err(RespError::InvalidFrame);
        }
        match read_header(buf, 1) {
            Header::More => Err(RespError::NotComplete),
            Header::Bad => Err(RespError::InvalidFrame),
            Header::Huge(_end) => {
                proof {
                    assert(usize::MAX as int <= u64::MAX as int);
                }
                Err(RespError::NotComplete)
            },
            Header::Num(v, end) => {
                proof {
                    assert(usize::MAX as int <= u64::MAX as int);
                }
                let room = usize::MAX - end;
                if room < 2 || v > (room - 2) as u64 {
                    Err(RespError::NotComplete)
                } else {
                    Ok(end + (v as usize) + 2)
                }
            },
        }
    }
}

impl NullBulkString {
    /// Decodes the null bulk string's fixed five-byte marker from the front
    /// of the buffer, consuming it on success; a strict agreeing prefix is
    /// `NotComplete`, a conflicting byte is `InvalidFrame`.
    pub fn decode(buf: &mut bytes::BytesMut) -> (r: Result<NullBulkString, RespError>)
        ensures
            match parse_literal(buf_bytes(*old(buf)), null_bulk_enc(), FrameView::NullBulk) {
                ParseOutcome::Found(v, n) => r == Result::<NullBulkString, RespError>::Ok(
                    NullBulkString,
                ) && buf_bytes(*final(buf)) == buf_bytes(*old(buf)).skip(5),
                ParseOutcome::Incomplete => r == Result::<NullBulkString, RespError>::Err(
                    RespError::NotComplete,
                ) && buf_bytes(*final(buf)) == buf_bytes(*old(buf)),
                ParseOutcome::Malformed => r == Result::<NullBulkString, RespError>::Err(
                    RespError::InvalidFrame,
                ) && buf_bytes(*final(buf)) == buf_bytes(*old(buf)),
            },
    {
        let data = buf_to_vec(buf);
        match match_lit5(data.as_slice(), 36, 45, 49, 13, 10, Ghost(null_bulk_enc())) {
            Ok(c) => {
                buf_advance(buf, c);
                Ok(NullBulkString)
            },
            Err(e) => Err(e),
        }
    }

    /// The null bulk string's encoding always occupies exactly five bytes;
    /// the buffer is not consulted.
    pub fn expect_length(_buf: &[u8]) -> (r: Result<usize, RespError>)
        ensures
            r == Result::<usize, RespError>::Ok(5usize),
    {
        Ok(5)
    }
}

} // verus!
