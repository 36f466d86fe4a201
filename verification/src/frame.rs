//! The RESP frame types and their mathematical views.
//!
//! The wire protocol here covers the variants the command set exercises:
//! integers, bulk strings with a distinct null marker, and arrays with a
//! distinct null marker. A frame's view is a [`FrameView`], a ghost value
//! holding the same data over `Seq`, which every codec and store contract
//! speaks of.

use vstd::prelude::*;

verus! {

broadcast use vstd::std_specs::vec::group_vec_axioms, vstd::seq::group_seq_axioms;

/// A length-prefixed binary string frame; its bytes are arbitrary.
#[derive(Debug, PartialEq, Eq)]
pub struct BulkString(pub Vec<u8>);

/// The null bulk string, an absence marker distinct from the empty string.
#[derive(Debug, PartialEq, Eq)]
pub struct NullBulkString;

/// A bulk string or its null marker.
#[derive(Debug, PartialEq, Eq)]
pub enum RespBulkString {
    BulkString(BulkString),
    NullBulkString(NullBulkString),
}

/// An ordered sequence of frames.
#[derive(Debug, PartialEq, Eq)]
pub struct RespArray(pub Vec<RespFrame>);

/// The null array, an absence marker distinct from the empty array.
#[derive(Debug, PartialEq, Eq)]
pub struct RespNullArray;

/// One self-describing value of the wire protocol.
#[derive(Debug, PartialEq, Eq)]
pub enum RespFrame {
    Integer(i64),
    BulkString(BulkString),
    NullBulkString(NullBulkString),
    Array(Vec<RespFrame>),
    NullArray(RespNullArray),
}

/// The mathematical value of a frame: the same tree over `Seq`.
#[verifier::ext_equal]
pub enum FrameView {
    Int(i64),
    Bulk(Seq<u8>),
    NullBulk,
    Arr(Seq<FrameView>),
    NullArr,
}

/// A decode outcome that is not a value: the buffer does not yet hold a
/// whole frame (`NotComplete`, recoverable by reading more bytes), or the
/// bytes at the front of the buffer are not a well-formed frame
/// (`InvalidFrame`, fatal for that stream position).
#[derive(Debug, PartialEq, Eq, Structural, Clone, Copy)]
pub enum RespError {
    NotComplete,
    InvalidFrame,
}

impl View for BulkString {
    type V = Seq<u8>;

    open spec fn view(&self) -> Seq<u8> {
        self.0@
    }
}

/// The view of one frame.
pub open spec fn frame_view(f: RespFrame) -> FrameView
    decreases f via frame_view_decreases
{
    match f {
        RespFrame::Integer(i) => FrameView::Int(i),
        RespFrame::BulkString(b) => FrameView::Bulk(b.0@),
        RespFrame::NullBulkString(_) => FrameView::NullBulk,
        RespFrame::Array(l) => FrameView::Arr(frames_view(l@)),
        RespFrame::NullArray(_) => FrameView::NullArr,
    }
}

/// The views of a sequence of frames, elementwise. The range guard keeps
/// the element access within the sequence, which bounds the recursion.
pub open spec fn frames_view(s: Seq<RespFrame>) -> Seq<FrameView>
    decreases s,
{
    Seq::new(
        s.len(),
        |i: int|
            if 0 <= i < s.len() {
                frame_view(s[i])
            } else {
                FrameView::NullArr
            },
    )
}

#[via_fn]
proof fn frame_view_decreases(f: RespFrame) {
    match f {
        RespFrame::Array(l) => {
            assert(decreases_to!(f => l));
            assert(decreases_to!(l => l@));
        },
        _ => {},
    }
}

impl View for RespFrame {
    type V = FrameView;

    open spec fn view(&self) -> FrameView {
        frame_view(*self)
    }
}

impl View for RespArray {
    type V = Seq<FrameView>;

    open spec fn view(&self) -> Seq<FrameView> {
        frames_view(self.0@)
    }
}

impl View for RespBulkString {
    type V = FrameView;

    open spec fn view(&self) -> FrameView {
        match self {
            RespBulkString::BulkString(b) => FrameView::Bulk(b.0@),
            RespBulkString::NullBulkString(_) => FrameView::NullBulk,
        }
    }
}

impl BulkString {
    /// Wraps a byte vector as a bulk string frame.
    pub fn new(s: Vec<u8>) -> (r: BulkString)
        ensures
            r@ == s@,
    {
        BulkString(s)
    }
}

impl RespBulkString {
    /// An empty byte vector stands for absence and becomes the null bulk
    /// string; any other contents become a plain bulk string.
    pub fn new(s: Vec<u8>) -> (r: RespBulkString)
        ensures
            s@.len() == 0 ==> r@ == FrameView::NullBulk,
            s@.len() > 0 ==> r@ == FrameView::Bulk(s@),
    {
        if s.len() == 0 {
            RespBulkString::NullBulkString(NullBulkString)
        } else {
            RespBulkString::BulkString(BulkString::new(s))
        }
    }
}

impl From<RespBulkString> for RespFrame {
    fn from(s: RespBulkString) -> (r: RespFrame) {
        match s {
            RespBulkString::BulkString(b) => RespFrame::BulkString(b),
            RespBulkString::NullBulkString(n) => RespFrame::NullBulkString(n),
        }
    }
}

impl vstd::std_specs::convert::FromSpecImpl<RespBulkString> for RespFrame {
    open spec fn obeys_from_spec() -> bool {
        true
    }

    open spec fn from_spec(s: RespBulkString) -> RespFrame {
        match s {
            RespBulkString::BulkString(b) => RespFrame::BulkString(b),
            RespBulkString::NullBulkString(n) => RespFrame::NullBulkString(n),
        }
    }
}

/// Copies a byte vector; written out so that verified code knows the copy
/// holds the same bytes.
pub fn clone_bytes(v: &Vec<u8>) -> (r: Vec<u8>)
    ensures
        r@ == v@,
{
    let mut r: Vec<u8> = Vec::new();
    let mut i: usize = 0;
    while i < v.len()
        invariant
            i <= v.len(),
            r@ == v@.take(i as int),
        decreases v.len() - i,
    {
        r.push(v[i]);
        proof {
            assert(v@.take(i as int + 1) =~= v@.take(i as int).push(v@[i as int]));
        }
        i = i + 1;
    }
    proof {
        assert(v@.take(v@.len() as int) =~= v@);
    }
    r
}

/// Copies a frame; the copy has the same view.
#[verifier::loop_isolation(false)]
pub fn clone_frame(f: &RespFrame) -> (r: RespFrame)
    ensures
        r@ == f@,
    decreases f,
{
    match f {
        RespFrame::Integer(i) => RespFrame::Integer(*i),
        RespFrame::BulkString(b) => RespFrame::BulkString(BulkString(clone_bytes(&b.0))),
        RespFrame::NullBulkString(_) => RespFrame::NullBulkString(NullBulkString),
        RespFrame::Array(l) => {
            let mut out: Vec<RespFrame> = Vec::new();
            let n = l.len();
            let mut i: usize = 0;
            while i < n
                invariant
                    i <= n,
                    n == l@.len(),
                    out@.len() == i as int,
                    forall|j: int| 0 <= j < i ==> out@[j]@ == l@[j]@,
                decreases n - i,
            {
                proof {
                    let fv: RespFrame = *f;
                    match fv {
                        RespFrame::Array(ll) => {
                            assert(decreases_to!(fv => ll));
                            assert(decreases_to!(ll => ll[i as int]));
                        },
                        _ => {},
                    }
                }
                let e = clone_frame(&l[i]);
                out.push(e);
                i = i + 1;
            }
            proof {
                assert(frames_view(out@) =~= frames_view(l@));
            }
            RespFrame::Array(out)
        },
        RespFrame::NullArray(_) => RespFrame::NullArray(RespNullArray),
    }
}

impl Clone for RespFrame {
    fn clone(&self) -> (r: RespFrame)
        ensures
            r@ == self@,
    {
        clone_frame(self)
    }
}

impl Clone for BulkString {
    fn clone(&self) -> (r: BulkString)
        ensures
            r@ == self@,
    {
        BulkString(clone_bytes(&self.0))
    }
}

} // verus!
