//! The command layer: one typed struct per operation, each built from a
//! decoded array frame (validating the command name, the arity and the
//! argument shapes) and executed against the [`Backend`].
//!
//! Every request is an array of bulk strings: the command name, then its
//! arguments. Parsing never touches the store; execution performs exactly
//! the primitive operations the command's semantics call for.

use crate::backend::{assoc_view, scalar_vf, spec_sadd, spec_sismember, Backend};
use crate::frame::{
    clone_bytes, clone_frame, frames_view, BulkString, FrameView, NullBulkString, RespArray,
    RespFrame, RespNullArray,
};
use vstd::prelude::*;
use vstd::utf8::{encode_utf8, valid_utf8};

verus! {

broadcast use vstd::std_specs::vec::group_vec_axioms, vstd::seq::group_seq_axioms;

/// A request that fails before touching the store: an unknown command name
/// or a wrong argument count (`InvalidCommand`), or an argument present but
/// not of the expected shape, including invalid text encoding
/// (`InvalidArgument`).
#[derive(Debug, PartialEq, Eq, Structural, Clone, Copy)]
pub enum CommandError {
    InvalidCommand,
    InvalidArgument,
}

/// ASCII upper-case letters fold to lower case; other bytes stand.
pub open spec fn lower_byte(b: u8) -> u8 {
    if 65 <= b <= 90 {
        (b + 32) as u8
    } else {
        b
    }
}

/// The ASCII-lower-case fold of a byte sequence.
pub open spec fn lower_bytes(s: Seq<u8>) -> Seq<u8> {
    s.map_values(|b: u8| lower_byte(b))
}

/// The first element is a bulk string that names the command,
/// case-insensitively in ASCII.
pub open spec fn cmd_name_ok(vs: Seq<FrameView>, name: Seq<u8>) -> bool {
    vs.len() > 0 && vs[0] is Bulk && lower_bytes(vs[0]->Bulk_0) == name
}

/// The elements in `[from, to)` are all bulk strings holding valid UTF-8.
pub open spec fn args_text(vs: Seq<FrameView>, from: int, to: int) -> bool {
    forall|i: int| from <= i < to ==> (#[trigger] vs[i]) is Bulk && valid_utf8(vs[i]->Bulk_0)
}

/// Relies on `String::from_utf8`: it succeeds exactly on valid UTF-8 input,
/// and the characters of the resulting string encode back to exactly the
/// input bytes.
#[verifier::external_body]
fn string_from_utf8(bytes: Vec<u8>) -> (r: Option<String>)
    ensures
        match r {
            Option::Some(s) => valid_utf8(bytes@) && encode_utf8(s@) == bytes@,
            Option::None => !valid_utf8(bytes@),
        },
{
    String::from_utf8(bytes).ok()
}

/// Whether the ASCII-lower-case fold of `b` is exactly `name`.
fn bytes_lower_is(b: &Vec<u8>, name: &[u8]) -> (r: bool)
    ensures
        r == (lower_bytes(b@) == name@),
{
    if b.len() != name.len() {
        proof {
            assert(lower_bytes(b@).len() == b@.len());
        }
        return false;
    }
    let mut i: usize = 0;
    while i < b.len()
        invariant
            i <= b@.len(),
            b@.len() == name@.len(),
            forall|j: int| 0 <= j < i ==> lower_bytes(b@)[j] == name@[j],
        decreases b@.len() - i,
    {
        let c = b[i];
        let lc: u8 = if c >= 65 && c <= 90 {
            c + 32
        } else {
            c
        };
        proof {
            assert(lower_bytes(b@)[i as int] == lower_byte(b@[i as int]));
        }
        if lc != name[i] {
            proof {
                assert(lower_bytes(b@)[i as int] != name@[i as int]);
            }
            return false;
        }
        i = i + 1;
    }
    proof {
        assert(lower_bytes(b@) =~= name@);
    }
    true
}

/// Converts the bulk-string argument at `vs[i]` to text; `None` when it is
/// not a bulk string or not valid UTF-8.
fn arg_to_text(args: &Vec<RespFrame>, i: usize) -> (r: Option<String>)
    requires
        i < args@.len(),
    ensures
        match r {
            Option::Some(s) => frames_view(args@)[i as int] is Bulk && valid_utf8(
                frames_view(args@)[i as int]->Bulk_0,
            ) && encode_utf8(s@) == frames_view(args@)[i as int]->Bulk_0,
            Option::None => !(frames_view(args@)[i as int] is Bulk && valid_utf8(
                frames_view(args@)[i as int]->Bulk_0,
            )),
        },
{
    match &args[i] {
        RespFrame::BulkString(bs) => string_from_utf8(clone_bytes(&bs.0)),
        _ => None,
    }
}

/// `SADD key member [member ...]`: adds each member to the set at `key`, in
/// the given order.
#[derive(Debug)]
pub struct SAdd {
    pub key: String,
    pub members: Vec<String>,
}

/// `SISMEMBER key member`: membership test.
#[derive(Debug)]
pub struct SIsMember {
    pub key: String,
    pub member: String,
}

/// The characters of each string.
pub open spec fn strs_view(ms: Seq<String>) -> Seq<Seq<char>> {
    ms.map_values(|m: String| m@)
}

/// The sets map after adding the members to `k`'s set, one at a time in
/// order.
pub open spec fn sadd_fold(
    m: Map<Seq<char>, Set<Seq<char>>>,
    k: Seq<char>,
    ms: Seq<Seq<char>>,
) -> Map<Seq<char>, Set<Seq<char>>>
    decreases ms.len(),
{
    if ms.len() == 0 {
        m
    } else {
        sadd_fold(spec_sadd(m, k, ms[0]).0, k, ms.drop_first())
    }
}

/// The per-member answers of that run: 1 for a newly inserted member, 0
/// for one already present at its turn.
pub open spec fn sadd_flags(
    m: Map<Seq<char>, Set<Seq<char>>>,
    k: Seq<char>,
    ms: Seq<Seq<char>>,
) -> Seq<FrameView>
    decreases ms.len(),
{
    if ms.len() == 0 {
        Seq::empty()
    } else {
        seq![
            FrameView::Int(
                if spec_sadd(m, k, ms[0]).1 {
                    1
                } else {
                    0
                },
            ),
        ] + sadd_flags(spec_sadd(m, k, ms[0]).0, k, ms.drop_first())
    }
}

impl SAdd {
    /// Builds the command from a decoded array frame. The array must hold
    /// the name `sadd` (ASCII-case-insensitively), a key, and at least one
    /// member; too few elements or a wrong name are an invalid command, a
    /// key or member that is not a bulk string of valid UTF-8 is an invalid
    /// argument.
    #[verifier::loop_isolation(false)]
    pub fn try_from(value: RespArray) -> (r: Result<SAdd, CommandError>)
        ensures
            (r matches Result::Ok(c) ==> value@.len() >= 3 && cmd_name_ok(
                value@,
                seq![115u8, 97u8, 100u8, 100u8],
            ) && args_text(value@, 1, value@.len() as int) && encode_utf8(c.key@) == value@[
                1
            ]->Bulk_0 && c.members@.len() == value@.len() - 2 && (forall|i: int|
                0 <= i < value@.len() - 2 ==> encode_utf8((#[trigger] c.members@[i])@) == value@[
                    i + 2
                ]->Bulk_0)),
            r == Result::<SAdd, CommandError>::Err(CommandError::InvalidCommand) <==> (value@.len()
                < 3 || !cmd_name_ok(value@, seq![115u8, 97u8, 100u8, 100u8])),
            r == Result::<SAdd, CommandError>::Err(CommandError::InvalidArgument) <==> (value@.len()
                >= 3 && cmd_name_ok(value@, seq![115u8, 97u8, 100u8, 100u8]) && !args_text(
                value@,
                1,
                value@.len() as int,
            )),
    {
        let n = value.0.len();
        if n < 3 {
            return Err(CommandError::InvalidCommand);
        }
        let name_ok = match &value.0[0] {
            RespFrame::BulkString(bs) => bytes_lower_is(&bs.0, &[115u8, 97u8, 100u8, 100u8]),
            _ => false,
        };
        if !name_ok {
            proof {
                assert(!cmd_name_ok(value@, seq![115u8, 97u8, 100u8, 100u8]));
            }
            return Err(CommandError::InvalidCommand);
        }
        proof {
            assert(cmd_name_ok(value@, seq![115u8, 97u8, 100u8, 100u8]));
        }
        let key = match arg_to_text(&value.0, 1) {
            Some(s) => s,
            None => {
                proof {
                    assert(!((value@[1]) is Bulk && valid_utf8(value@[1]->Bulk_0)));
                    assert(!args_text(value@, 1, value@.len() as int));
                }
                return Err(CommandError::InvalidArgument);
            },
        };
        let mut members: Vec<String> = Vec::new();
        let mut i: usize = 2;
        while i < value.0.len()
            invariant
                2 <= i <= value.0@.len(),
                value.0@.len() >= 3,
                members@.len() == i - 2,
                forall|j: int|
                    2 <= j < i ==> (#[trigger] frames_view(value.0@)[j]) is Bulk && valid_utf8(
                        frames_view(value.0@)[j]->Bulk_0,
                    ),
                forall|j: int|
                    0 <= j < i - 2 ==> encode_utf8((#[trigger] members@[j])@) == frames_view(
                        value.0@,
                    )[j + 2]->Bulk_0,
            decreases value.0@.len() - i,
        {
            match arg_to_text(&value.0, i) {
                Some(s) => {
                    members.push(s);
                },
                None => {
                    proof {
                        assert(!((value@[i as int]) is Bulk && valid_utf8(
                            value@[i as int]->Bulk_0,
                        )));
                        assert(!args_text(value@, 1, value@.len() as int));
                    }
                    return Err(CommandError::InvalidArgument);
                },
            }
            i = i + 1;
        }
        Ok(SAdd { key, members })
    }

    /// Adds each member in order, collecting one integer answer (1 newly
    /// added, 0 already present) per member into an array frame.
    #[verifier::loop_isolation(false)]
    pub fn execute(self, backend: &mut Backend) -> (r: RespFrame)
        requires
            old(backend).wf(),
        ensures
            final(backend).wf(),
            final(backend).sets() == sadd_fold(
                old(backend).sets(),
                self.key@,
                strs_view(self.members@),
            ),
            r@ == FrameView::Arr(
                sadd_flags(old(backend).sets(), self.key@, strs_view(self.members@)),
            ),
            final(backend).scalars() == old(backend).scalars(),
            final(backend).hashes() == old(backend).hashes(),
    {
        let ghost k = self.key@;
        let ghost ms = strs_view(self.members@);
        let ghost m0 = backend.sets();
        let mut out: Vec<RespFrame> = Vec::new();
        let mut i: usize = 0;
        proof {
            assert(ms.skip(0) =~= ms);
            assert(frames_view(out@) =~= Seq::<FrameView>::empty());
            assert(Seq::<FrameView>::empty() + sadd_flags(m0, k, ms) =~= sadd_flags(m0, k, ms));
        }
        while i < self.members.len()
            invariant
                i <= self.members@.len(),
                backend.wf(),
                ms == strs_view(self.members@),
                ms.len() == self.members@.len(),
                sadd_fold(m0, k, ms) == sadd_fold(backend.sets(), k, ms.skip(i as int)),
                sadd_flags(m0, k, ms) == frames_view(out@) + sadd_flags(
                    backend.sets(),
                    k,
                    ms.skip(i as int),
                ),
                out@.len() == i as int,
                backend.scalars() == old(backend).scalars(),
                backend.hashes() == old(backend).hashes(),
            decreases self.members@.len() - i,
        {
            let ghost cur = backend.sets();
            let member = self.members[i].clone();
            proof {
                assert(ms[i as int] == self.members@[i as int]@);
                assert(ms.skip(i as int)[0] == ms[i as int]);
                assert(ms.skip(i as int).drop_first() =~= ms.skip(i as int + 1));
            }
            let newly = backend.sadd(self.key.clone(), member);
            let flag: i64 = if newly {
                1
            } else {
                0
            };
            proof {
                assert(spec_sadd(cur, k, ms[i as int]).0 == backend.sets());
                assert(sadd_fold(cur, k, ms.skip(i as int)) == sadd_fold(
                    backend.sets(),
                    k,
                    ms.skip(i as int + 1),
                ));
                assert(sadd_flags(cur, k, ms.skip(i as int)) == seq![FrameView::Int(flag)]
                    + sadd_flags(backend.sets(), k, ms.skip(i as int + 1)));
            }
            let ghost out0 = out@;
            out.push(RespFrame::Integer(flag));
            proof {
                assert(out@.drop_last() =~= out0);
                assert(frames_view(out@) =~= frames_view(out0).push(FrameView::Int(flag)));
                assert(frames_view(out0) + (seq![FrameView::Int(flag)] + sadd_flags(
                    backend.sets(),
                    k,
                    ms.skip(i as int + 1),
                )) =~= frames_view(out@) + sadd_flags(backend.sets(), k, ms.skip(i as int + 1)));
            }
            i = i + 1;
        }
        proof {
            assert(ms.skip(ms.len() as int) =~= Seq::<Seq<char>>::empty());
            assert(frames_view(out@) + Seq::<FrameView>::empty() =~= frames_view(out@));
        }
        RespFrame::Array(out)
    }
}

impl SIsMember {
    /// Builds the command from a decoded array frame: exactly the name
    /// `sismember`, a key and a member.
    pub fn try_from(value: RespArray) -> (r: Result<SIsMember, CommandError>)
        ensures
            (r matches Result::Ok(c) ==> value@.len() == 3 && cmd_name_ok(
                value@,
                seq![115u8, 105u8, 115u8, 109u8, 101u8, 109u8, 98u8, 101u8, 114u8],
            ) && args_text(value@, 1, 3) && encode_utf8(c.key@) == value@[1]->Bulk_0 && encode_utf8(
                c.member@,
            ) == value@[2]->Bulk_0),
            r == Result::<SIsMember, CommandError>::Err(CommandError::InvalidCommand) <==> (
            value@.len() != 3 || !cmd_name_ok(
                value@,
                seq![115u8, 105u8, 115u8, 109u8, 101u8, 109u8, 98u8, 101u8, 114u8],
            )),
            r == Result::<SIsMember, CommandError>::Err(CommandError::InvalidArgument) <==> (
            value@.len() == 3 && cmd_name_ok(
                value@,
                seq![115u8, 105u8, 115u8, 109u8, 101u8, 109u8, 98u8, 101u8, 114u8],
            ) && !args_text(value@, 1, 3)),
    {
        let n = value.0.len();
        if n != 3 {
            return Err(CommandError::InvalidCommand);
        }
        let name_ok = match &value.0[0] {
            RespFrame::BulkString(bs) => bytes_lower_is(
                &bs.0,
                &[115u8, 105u8, 115u8, 109u8, 101u8, 109u8, 98u8, 101u8, 114u8],
            ),
            _ => false,
        };
        if !name_ok {
            proof {
                assert(!cmd_name_ok(
                    value@,
                    seq![115u8, 105u8, 115u8, 109u8, 101u8, 109u8, 98u8, 101u8, 114u8],
                ));
            }
            return Err(CommandError::InvalidCommand);
        }
        proof {
            assert(cmd_name_ok(
                value@,
                seq![115u8, 105u8, 115u8, 109u8, 101u8, 109u8, 98u8, 101u8, 114u8],
            ));
        }
        let key = match arg_to_text(&value.0, 1) {
            Some(s) => s,
            None => {
                proof {
                    assert(!((value@[1]) is Bulk && valid_utf8(value@[1]->Bulk_0)));
                    assert(!args_text(value@, 1, 3));
                }
                return Err(CommandError::InvalidArgument);
            },
        };
        let member = match arg_to_text(&value.0, 2) {
            Some(s) => s,
            None => {
                proof {
                    assert(!((value@[2]) is Bulk && valid_utf8(value@[2]->Bulk_0)));
                    assert(!args_text(value@, 1, 3));
                }
                return Err(CommandError::InvalidArgument);
            },
        };
        proof {
            assert(forall|i: int|
                1 <= i < 3 ==> (#[trigger] frames_view(value.0@)[i]) is Bulk && valid_utf8(
                    frames_view(value.0@)[i]->Bulk_0,
                )) by {
                assert(frames_view(value.0@)[1] is Bulk && valid_utf8(
                    frames_view(value.0@)[1]->Bulk_0,
                ));
                assert(frames_view(value.0@)[2] is Bulk && valid_utf8(
                    frames_view(value.0@)[2]->Bulk_0,
                ));
            }
        }
        Ok(SIsMember { key, member })
    }

    /// Answers 1 when the member is in the key's set, 0 otherwise; the
    /// store is untouched.
    pub fn execute(self, backend: &Backend) -> (r: RespFrame)
        requires
            backend.wf(),
        ensures
            r@ == FrameView::Int(
                if spec_sismember(backend.sets(), self.key@, self.member@) {
                    1
                } else {
                    0
                },
            ),
    {
        let present = backend.sismember(self.key.as_str(), self.member.as_str());
        RespFrame::Integer(
            if present {
                1
            } else {
                0
            },
        )
    }
}


/// `GET key`: scalar lookup.
#[derive(Debug)]
pub struct Get {
    pub key: String,
}

/// `SET key value`: scalar insert or overwrite. (`Set` itself is a word of
/// the verifier's prelude, hence the name.)
#[derive(Debug)]
pub struct SetCmd {
    pub key: String,
    pub value: RespFrame,
}

/// `HGET key field`: hash field lookup.
#[derive(Debug)]
pub struct HGet {
    pub key: String,
    pub field: String,
}

/// `HSET key field value`: hash field insert or overwrite.
#[derive(Debug)]
pub struct HSet {
    pub key: String,
    pub field: String,
    pub value: RespFrame,
}

/// `HGETALL key`: a snapshot of the whole hash at `key`.
#[derive(Debug)]
pub struct HGetAll {
    pub key: String,
}

/// The payload bytes of a string argument: its UTF-8 encoding.
fn bulk_of_string(st: &String) -> (r: BulkString)
    ensures
        r@ == encode_utf8(st@),
{
    let b = st.as_str().as_bytes();
    let mut out: Vec<u8> = Vec::new();
    let mut i: usize = 0;
    while i < b.len()
        invariant
            i <= b@.len(),
            out@ == b@.take(i as int),
        decreases b@.len() - i,
    {
        out.push(b[i]);
        proof {
            assert(b@.take(i as int + 1) =~= b@.take(i as int).push(b@[i as int]));
        }
        i = i + 1;
    }
    proof {
        assert(b@.take(b@.len() as int) =~= b@);
    }
    BulkString(out)
}

impl Get {
    /// Builds the command: exactly the name `get` and a key.
    pub fn try_from(value: RespArray) -> (r: Result<Get, CommandError>)
        ensures
            (r matches Result::Ok(c) ==> value@.len() == 2 && cmd_name_ok(
                value@,
                seq![103u8, 101u8, 116u8],
            ) && args_text(value@, 1, 2) && encode_utf8(c.key@) == value@[1]->Bulk_0),
            r == Result::<Get, CommandError>::Err(CommandError::InvalidCommand) <==> (value@.len()
                != 2 || !cmd_name_ok(value@, seq![103u8, 101u8, 116u8])),
            r == Result::<Get, CommandError>::Err(CommandError::InvalidArgument) <==> (value@.len()
                == 2 && cmd_name_ok(value@, seq![103u8, 101u8, 116u8]) && !args_text(value@, 1, 2)),
    {
        if value.0.len() != 2 {
            return Err(CommandError::InvalidCommand);
        }
        let name_ok = match &value.0[0] {
            RespFrame::BulkString(bs) => bytes_lower_is(&bs.0, &[103u8, 101u8, 116u8]),
            _ => false,
        };
        if !name_ok {
            proof {
                assert(!cmd_name_ok(value@, seq![103u8, 101u8, 116u8]));
            }
            return Err(CommandError::InvalidCommand);
        }
        proof {
            assert(cmd_name_ok(value@, seq![103u8, 101u8, 116u8]));
        }
        match arg_to_text(&value.0, 1) {
            Some(key) => {
                proof {
                    assert(forall|i: int|
                        1 <= i < 2 ==> (#[trigger] value@[i]) is Bulk && valid_utf8(
                            value@[i]->Bulk_0,
                        ));
                }
                Ok(Get { key })
            },
            None => {
                proof {
                    assert(!args_text(value@, 1, 2));
                }
                Err(CommandError::InvalidArgument)
            },
        }
    }

    /// The stored scalar value, or the null bulk string when the key is
    /// absent; the store is untouched.
    pub fn execute(self, backend: &Backend) -> (r: RespFrame)
        requires
            backend.wf(),
        ensures
            r@ == (if backend.scalars().contains_key(self.key@) {
                backend.scalars()[self.key@]
            } else {
                FrameView::NullBulk
            }),
    {
        match backend.get(self.key.as_str()) {
            Some(f) => f,
            None => RespFrame::NullBulkString(NullBulkString),
        }
    }
}

impl SetCmd {
    /// Builds the command: exactly the name `set`, a key, and any frame as
    /// the value.
    pub fn try_from(value: RespArray) -> (r: Result<SetCmd, CommandError>)
        ensures
            (r matches Result::Ok(c) ==> value@.len() == 3 && cmd_name_ok(
                value@,
                seq![115u8, 101u8, 116u8],
            ) && args_text(value@, 1, 2) && encode_utf8(c.key@) == value@[1]->Bulk_0 && c.value@
                == value@[2]),
            r == Result::<SetCmd, CommandError>::Err(CommandError::InvalidCommand) <==> (
            value@.len() != 3 || !cmd_name_ok(value@, seq![115u8, 101u8, 116u8])),
            r == Result::<SetCmd, CommandError>::Err(CommandError::InvalidArgument) <==> (
            value@.len() == 3 && cmd_name_ok(value@, seq![115u8, 101u8, 116u8]) && !args_text(
                value@,
                1,
                2,
            )),
    {
        if value.0.len() != 3 {
            return Err(CommandError::InvalidCommand);
        }
        let name_ok = match &value.0[0] {
            RespFrame::BulkString(bs) => bytes_lower_is(&bs.0, &[115u8, 101u8, 116u8]),
            _ => false,
        };
        if !name_ok {
            proof {
                assert(!cmd_name_ok(value@, seq![115u8, 101u8, 116u8]));
            }
            return Err(CommandError::InvalidCommand);
        }
        proof {
            assert(cmd_name_ok(value@, seq![115u8, 101u8, 116u8]));
        }
        match arg_to_text(&value.0, 1) {
            Some(key) => {
                let v = clone_frame(&value.0[2]);
                proof {
                    assert(forall|i: int|
                        1 <= i < 2 ==> (#[trigger] value@[i]) is Bulk && valid_utf8(
                            value@[i]->Bulk_0,
                        ));
                }
                Ok(SetCmd { key, value: v })
            },
            None => {
                proof {
                    assert(!args_text(value@, 1, 2));
                }
                Err(CommandError::InvalidArgument)
            },
        }
    }

    /// Stores the value under the key and acknowledges with the integer 1
    /// (the variant set here has no simple-string reply).
    pub fn execute(self, backend: &mut Backend) -> (r: RespFrame)
        requires
            old(backend).wf(),
        ensures
            final(backend).wf(),
            final(backend).scalars() == old(backend).scalars().insert(self.key@, self.value@),
            final(backend).hashes() == old(backend).hashes(),
            final(backend).sets() == old(backend).sets(),
            r@ == FrameView::Int(1),
    {
        backend.set(self.key, self.value);
        RespFrame::Integer(1)
    }
}

impl HGet {
    /// Builds the command: exactly the name `hget`, a key and a field.
    pub fn try_from(value: RespArray) -> (r: Result<HGet, CommandError>)
        ensures
            (r matches Result::Ok(c) ==> value@.len() == 3 && cmd_name_ok(
                value@,
                seq![104u8, 103u8, 101u8, 116u8],
            ) && args_text(value@, 1, 3) && encode_utf8(c.key@) == value@[1]->Bulk_0 && encode_utf8(
                c.field@,
            ) == value@[2]->Bulk_0),
            r == Result::<HGet, CommandError>::Err(CommandError::InvalidCommand) <==> (value@.len()
                != 3 || !cmd_name_ok(value@, seq![104u8, 103u8, 101u8, 116u8])),
            r == Result::<HGet, CommandError>::Err(CommandError::InvalidArgument) <==> (value@.len()
                == 3 && cmd_name_ok(value@, seq![104u8, 103u8, 101u8, 116u8]) && !args_text(
                value@,
                1,
                3,
            )),
    {
        if value.0.len() != 3 {
            return Err(CommandError::InvalidCommand);
        }
        let name_ok = match &value.0[0] {
            RespFrame::BulkString(bs) => bytes_lower_is(&bs.0, &[104u8, 103u8, 101u8, 116u8]),
            _ => false,
        };
        if !name_ok {
            proof {
                assert(!cmd_name_ok(value@, seq![104u8, 103u8, 101u8, 116u8]));
            }
            return Err(CommandError::InvalidCommand);
        }
        proof {
            assert(cmd_name_ok(value@, seq![104u8, 103u8, 101u8, 116u8]));
        }
        let key = match arg_to_text(&value.0, 1) {
            Some(st) => st,
            None => {
                proof {
                    assert(!((value@[1]) is Bulk && valid_utf8(value@[1]->Bulk_0)));
                    assert(!args_text(value@, 1, 3));
                }
                return Err(CommandError::InvalidArgument);
            },
        };
        let field = match arg_to_text(&value.0, 2) {
            Some(st) => st,
            None => {
                proof {
                    assert(!((value@[2]) is Bulk && valid_utf8(value@[2]->Bulk_0)));
                    assert(!args_text(value@, 1, 3));
                }
                return Err(CommandError::InvalidArgument);
            },
        };
        proof {
            assert(forall|i: int|
                1 <= i < 3 ==> (#[trigger] value@[i]) is Bulk && valid_utf8(value@[i]->Bulk_0))
                by {
                assert(value@[1] is Bulk && valid_utf8(value@[1]->Bulk_0));
                assert(value@[2] is Bulk && valid_utf8(value@[2]->Bulk_0));
            }
        }
        Ok(HGet { key, field })
    }

    /// The stored field value, or the null bulk string when the key or the
    /// field is absent; the store is untouched.
    pub fn execute(self, backend: &Backend) -> (r: RespFrame)
        requires
            backend.wf(),
        ensures
            r@ == (if backend.hashes().contains_key(self.key@) && backend.hashes()[
                self.key@
            ].contains_key(self.field@) {
                backend.hashes()[self.key@][self.field@]
            } else {
                FrameView::NullBulk
            }),
    {
        match backend.hget(self.key.as_str(), self.field.as_str()) {
            Some(f) => f,
            None => RespFrame::NullBulkString(NullBulkString),
        }
    }
}

impl HSet {
    /// Builds the command: exactly the name `hset`, a key, a field, and any
    /// frame as the value.
    pub fn try_from(value: RespArray) -> (r: Result<HSet, CommandError>)
        ensures
            (r matches Result::Ok(c) ==> value@.len() == 4 && cmd_name_ok(
                value@,
                seq![104u8, 115u8, 101u8, 116u8],
            ) && args_text(value@, 1, 3) && encode_utf8(c.key@) == value@[1]->Bulk_0 && encode_utf8(
                c.field@,
            ) == value@[2]->Bulk_0 && c.value@ == value@[3]),
            r == Result::<HSet, CommandError>::Err(CommandError::InvalidCommand) <==> (value@.len()
                != 4 || !cmd_name_ok(value@, seq![104u8, 115u8, 101u8, 116u8])),
            r == Result::<HSet, CommandError>::Err(CommandError::InvalidArgument) <==> (value@.len()
                == 4 && cmd_name_ok(value@, seq![104u8, 115u8, 101u8, 116u8]) && !args_text(
                value@,
                1,
                3,
            )),
    {
        if value.0.len() != 4 {
            return Err(CommandError::InvalidCommand);
        }
        let name_ok = match &value.0[0] {
            RespFrame::BulkString(bs) => bytes_lower_is(&bs.0, &[104u8, 115u8, 101u8, 116u8]),
            _ => false,
        };
        if !name_ok {
            proof {
                assert(!cmd_name_ok(value@, seq![104u8, 115u8, 101u8, 116u8]));
            }
            return Err(CommandError::InvalidCommand);
        }
        proof {
            assert(cmd_name_ok(value@, seq![104u8, 115u8, 101u8, 116u8]));
        }
        let key = match arg_to_text(&value.0, 1) {
            Some(st) => st,
            None => {
                proof {
                    assert(!((value@[1]) is Bulk && valid_utf8(value@[1]->Bulk_0)));
                    assert(!args_text(value@, 1, 3));
                }
                return Err(CommandError::InvalidArgument);
            },
        };
        let field = match arg_to_text(&value.0, 2) {
            Some(st) => st,
            None => {
                proof {
                    assert(!((value@[2]) is Bulk && valid_utf8(value@[2]->Bulk_0)));
                    assert(!args_text(value@, 1, 3));
                }
                return Err(CommandError::InvalidArgument);
            },
        };
        let v = clone_frame(&value.0[3]);
        proof {
            assert(forall|i: int|
                1 <= i < 3 ==> (#[trigger] value@[i]) is Bulk && valid_utf8(value@[i]->Bulk_0))
                by {
                assert(value@[1] is Bulk && valid_utf8(value@[1]->Bulk_0));
                assert(value@[2] is Bulk && valid_utf8(value@[2]->Bulk_0));
            }
        }
        Ok(HSet { key, field, value: v })
    }

    /// Stores the value under the field in the key's hash and acknowledges
    /// with the integer 1.
    pub fn execute(self, backend: &mut Backend) -> (r: RespFrame)
        requires
            old(backend).wf(),
        ensures
            final(backend).wf(),
            final(backend).hashes() == old(backend).hashes().insert(
                self.key@,
                (if old(backend).hashes().contains_key(self.key@) {
                    old(backend).hashes()[self.key@]
                } else {
                    Map::empty()
                }).insert(self.field@, self.value@),
            ),
            final(backend).scalars() == old(backend).scalars(),
            final(backend).sets() == old(backend).sets(),
            r@ == FrameView::Int(1),
    {
        backend.hset(self.key, self.field, self.value);
        RespFrame::Integer(1)
    }
}

/// The flattened frames of a run of field/value pairs: each field as a bulk
/// string, then its value.
pub open spec fn pairs_frames(ps: Seq<(Seq<char>, FrameView)>) -> Seq<FrameView>
    decreases ps.len(),
{
    if ps.len() == 0 {
        Seq::empty()
    } else {
        pairs_frames(ps.drop_last()) + seq![
            FrameView::Bulk(encode_utf8(ps.last().0)),
            ps.last().1,
        ]
    }
}

/// The map a run of field/value pairs stands for, later pairs winning.
pub open spec fn pairs_map(ps: Seq<(Seq<char>, FrameView)>) -> Map<Seq<char>, FrameView>
    decreases ps.len(),
{
    if ps.len() == 0 {
        Map::empty()
    } else {
        pairs_map(ps.drop_last()).insert(ps.last().0, ps.last().1)
    }
}

/// The pair views of a stored field list give the same map as the list.
proof fn lemma_pairs_map_assoc(l: Seq<(String, RespFrame)>, ps: Seq<(Seq<char>, FrameView)>)
    requires
        ps.len() == l.len(),
        forall|i: int|
            0 <= i < l.len() ==> (#[trigger] ps[i]).0 == (#[trigger] l[i]).0@ && ps[i].1 == l[i].1@,
    ensures
        pairs_map(ps) == assoc_view(l, scalar_vf()),
    decreases l.len(),
{
    if l.len() > 0 {
        assert(forall|i: int|
            0 <= i < l.len() - 1 ==> (#[trigger] ps.drop_last()[i]) == ps[i] && (
            #[trigger] l.drop_last()[i]) == l[i]);
        lemma_pairs_map_assoc(l.drop_last(), ps.drop_last());
        assert(ps[l.len() - 1].0 == l[l.len() - 1].0@ && ps[l.len() - 1].1 == l[l.len() - 1].1@);
    }
}

impl HGetAll {
    /// Builds the command: exactly the name `hgetall` and a key.
    pub fn try_from(value: RespArray) -> (r: Result<HGetAll, CommandError>)
        ensures
            (r matches Result::Ok(c) ==> value@.len() == 2 && cmd_name_ok(
                value@,
                seq![104u8, 103u8, 101u8, 116u8, 97u8, 108u8, 108u8],
            ) && args_text(value@, 1, 2) && encode_utf8(c.key@) == value@[1]->Bulk_0),
            r == Result::<HGetAll, CommandError>::Err(CommandError::InvalidCommand) <==> (
            value@.len() != 2 || !cmd_name_ok(
                value@,
                seq![104u8, 103u8, 101u8, 116u8, 97u8, 108u8, 108u8],
            )),
            r == Result::<HGetAll, CommandError>::Err(CommandError::InvalidArgument) <==> (
            value@.len() == 2 && cmd_name_ok(
                value@,
                seq![104u8, 103u8, 101u8, 116u8, 97u8, 108u8, 108u8],
            ) && !args_text(value@, 1, 2)),
    {
        if value.0.len() != 2 {
            return Err(CommandError::InvalidCommand);
        }
        let name_ok = match &value.0[0] {
            RespFrame::BulkString(bs) => bytes_lower_is(
                &bs.0,
                &[104u8, 103u8, 101u8, 116u8, 97u8, 108u8, 108u8],
            ),
            _ => false,
        };
        if !name_ok {
            proof {
                assert(!cmd_name_ok(value@, seq![104u8, 103u8, 101u8, 116u8, 97u8, 108u8, 108u8]));
            }
            return Err(CommandError::InvalidCommand);
        }
        proof {
            assert(cmd_name_ok(value@, seq![104u8, 103u8, 101u8, 116u8, 97u8, 108u8, 108u8]));
        }
        match arg_to_text(&value.0, 1) {
            Some(key) => {
                proof {
                    assert(forall|i: int|
                        1 <= i < 2 ==> (#[trigger] value@[i]) is Bulk && valid_utf8(
                            value@[i]->Bulk_0,
                        ));
                }
                Ok(HGetAll { key })
            },
            None => {
                proof {
                    assert(!args_text(value@, 1, 2));
                }
                Err(CommandError::InvalidArgument)
            },
        }
    }

    /// A snapshot of the hash at the key: an array alternating each field
    /// (as a bulk string) with its value, the fields together standing for
    /// exactly the stored map; the null array when the key is absent.
    #[verifier::loop_isolation(false)]
    pub fn execute(self, backend: &Backend) -> (r: RespFrame)
        requires
            backend.wf(),
        ensures
            !backend.hashes().contains_key(self.key@) ==> r@ == FrameView::NullArr,
            backend.hashes().contains_key(self.key@) ==> exists|ps: Seq<(Seq<char>, FrameView)>|
                pairs_map(ps) == backend.hashes()[self.key@] && r@ == FrameView::Arr(
                    #[trigger] pairs_frames(ps),
                ),
    {
        match backend.hgetall(self.key.as_str()) {
            None => RespFrame::NullArray(RespNullArray),
            Some(items) => {
                let ghost ps = Seq::new(
                    items@.len(),
                    |i: int|
                        if 0 <= i < items@.len() {
                            (items@[i].0@, items@[i].1@)
                        } else {
                            (Seq::<char>::empty(), FrameView::NullBulk)
                        },
                );
                let mut out: Vec<RespFrame> = Vec::new();
                let mut i: usize = 0;
                while i < items.len()
                    invariant
                        i <= items@.len(),
                        frames_view(out@) == pairs_frames(ps.take(i as int)),
                    decreases items@.len() - i,
                {
                    let fb = bulk_of_string(&items[i].0);
                    let vf = clone_frame(&items[i].1);
                    let ghost out0 = out@;
                    out.push(RespFrame::BulkString(fb));
                    out.push(vf);
                    proof {
                        assert(ps.take(i as int + 1).drop_last() =~= ps.take(i as int));
                        assert(frames_view(out@) =~= frames_view(out0) + seq![
                            FrameView::Bulk(encode_utf8(items@[i as int].0@)),
                            items@[i as int].1@,
                        ]);
                    }
                    i = i + 1;
                }
                proof {
                    assert(ps.take(items@.len() as int) =~= ps);
                    lemma_pairs_map_assoc(items@, ps);
                }
                RespFrame::Array(out)
            },
        }
    }
}


/// One validated request, ready to execute.
#[derive(Debug)]
pub enum Command {
    Get(Get),
    SetCmd(SetCmd),
    HGet(HGet),
    HSet(HSet),
    HGetAll(HGetAll),
    SAdd(SAdd),
    SIsMember(SIsMember),
}

/// The command names, as lower-case bytes.
pub open spec fn name_get() -> Seq<u8> {
    seq![103u8, 101u8, 116u8]
}

pub open spec fn name_set() -> Seq<u8> {
    seq![115u8, 101u8, 116u8]
}

pub open spec fn name_hget() -> Seq<u8> {
    seq![104u8, 103u8, 101u8, 116u8]
}

pub open spec fn name_hset() -> Seq<u8> {
    seq![104u8, 115u8, 101u8, 116u8]
}

pub open spec fn name_hgetall() -> Seq<u8> {
    seq![104u8, 103u8, 101u8, 116u8, 97u8, 108u8, 108u8]
}

pub open spec fn name_sadd() -> Seq<u8> {
    seq![115u8, 97u8, 100u8, 100u8]
}

pub open spec fn name_sismember() -> Seq<u8> {
    seq![115u8, 105u8, 115u8, 109u8, 101u8, 109u8, 98u8, 101u8, 114u8]
}

/// The first element names one of the supported commands.
pub open spec fn known_name(vs: Seq<FrameView>) -> bool {
    ||| cmd_name_ok(vs, name_get())
    ||| cmd_name_ok(vs, name_set())
    ||| cmd_name_ok(vs, name_hget())
    ||| cmd_name_ok(vs, name_hset())
    ||| cmd_name_ok(vs, name_hgetall())
    ||| cmd_name_ok(vs, name_sadd())
    ||| cmd_name_ok(vs, name_sismember())
}

/// No two command names are the same byte sequence.
proof fn lemma_names_distinct()
    ensures
        name_get() != name_set(),
        name_get() != name_hget(),
        name_get() != name_hset(),
        name_get() != name_hgetall(),
        name_get() != name_sadd(),
        name_get() != name_sismember(),
        name_set() != name_hget(),
        name_set() != name_hset(),
        name_set() != name_hgetall(),
        name_set() != name_sadd(),
        name_set() != name_sismember(),
        name_hget() != name_hset(),
        name_hget() != name_hgetall(),
        name_hget() != name_sadd(),
        name_hget() != name_sismember(),
        name_hset() != name_hgetall(),
        name_hset() != name_sadd(),
        name_hset() != name_sismember(),
        name_hgetall() != name_sadd(),
        name_hgetall() != name_sismember(),
        name_sadd() != name_sismember(),
{
    assert(name_get().len() == 3 && name_set().len() == 3 && name_hget().len() == 4
        && name_hset().len() == 4 && name_hgetall().len() == 7 && name_sadd().len() == 4
        && name_sismember().len() == 9);
    assert(name_get()[0] == 103 && name_set()[0] == 115 && name_hget()[1] == 103 && name_hset()[
        1
    ] == 115 && name_sadd()[0] == 115 && name_sadd()[1] == 97 && name_hget()[0] == 104
        && name_hset()[0] == 104);
}

impl Command {
    /// Routes a decoded array frame to the command its first element names
    /// and builds that command; an unknown or missing name is an invalid
    /// command.
    #[verifier::rlimit(60)]
    pub fn try_from(value: RespArray) -> (r: Result<Command, CommandError>)
        ensures
            !known_name(value@) ==> r == Result::<Command, CommandError>::Err(
                CommandError::InvalidCommand,
            ),
            cmd_name_ok(value@, name_get()) ==> (match r {
                Result::Ok(c) => c matches Command::Get(g) && value@.len() == 2 && args_text(
                    value@,
                    1,
                    2,
                ) && encode_utf8(g.key@) == value@[1]->Bulk_0,
                Result::Err(e) => (e == CommandError::InvalidCommand <==> value@.len() != 2) && (e
                    == CommandError::InvalidArgument <==> value@.len() == 2 && !args_text(
                    value@,
                    1,
                    2,
                )),
            }),
            cmd_name_ok(value@, name_set()) ==> (match r {
                Result::Ok(c) => c matches Command::SetCmd(g) && value@.len() == 3 && args_text(
                    value@,
                    1,
                    2,
                ) && encode_utf8(g.key@) == value@[1]->Bulk_0 && g.value@ == value@[2],
                Result::Err(e) => (e == CommandError::InvalidCommand <==> value@.len() != 3) && (e
                    == CommandError::InvalidArgument <==> value@.len() == 3 && !args_text(
                    value@,
                    1,
                    2,
                )),
            }),
            cmd_name_ok(value@, name_hget()) ==> (match r {
                Result::Ok(c) => c matches Command::HGet(g) && value@.len() == 3 && args_text(
                    value@,
                    1,
                    3,
                ) && encode_utf8(g.key@) == value@[1]->Bulk_0 && encode_utf8(g.field@) == value@[
                    2
                ]->Bulk_0,
                Result::Err(e) => (e == CommandError::InvalidCommand <==> value@.len() != 3) && (e
                    == CommandError::InvalidArgument <==> value@.len() == 3 && !args_text(
                    value@,
                    1,
                    3,
                )),
            }),
            cmd_name_ok(value@, name_hset()) ==> (match r {
                Result::Ok(c) => c matches Command::HSet(g) && value@.len() == 4 && args_text(
                    value@,
                    1,
                    3,
                ) && encode_utf8(g.key@) == value@[1]->Bulk_0 && encode_utf8(g.field@) == value@[
                    2
                ]->Bulk_0 && g.value@ == value@[3],
                Result::Err(e) => (e == CommandError::InvalidCommand <==> value@.len() != 4) && (e
                    == CommandError::InvalidArgument <==> value@.len() == 4 && !args_text(
                    value@,
                    1,
                    3,
                )),
            }),
            cmd_name_ok(value@, name_hgetall()) ==> (match r {
                Result::Ok(c) => c matches Command::HGetAll(g) && value@.len() == 2 && args_text(
                    value@,
                    1,
                    2,
                ) && encode_utf8(g.key@) == value@[1]->Bulk_0,
                Result::Err(e) => (e == CommandError::InvalidCommand <==> value@.len() != 2) && (e
                    == CommandError::InvalidArgument <==> value@.len() == 2 && !args_text(
                    value@,
                    1,
                    2,
                )),
            }),
            cmd_name_ok(value@, name_sadd()) ==> (match r {
                Result::Ok(c) => c matches Command::SAdd(g) && value@.len() >= 3 && args_text(
                    value@,
                    1,
                    value@.len() as int,
                ) && encode_utf8(g.key@) == value@[1]->Bulk_0 && g.members@.len() == value@.len()
                    - 2 && (forall|i: int|
                    0 <= i < value@.len() - 2 ==> encode_utf8((#[trigger] g.members@[i])@)
                        == value@[i + 2]->Bulk_0),
                Result::Err(e) => (e == CommandError::InvalidCommand <==> value@.len() < 3) && (e
                    == CommandError::InvalidArgument <==> value@.len() >= 3 && !args_text(
                    value@,
                    1,
                    value@.len() as int,
                )),
            }),
            cmd_name_ok(value@, name_sismember()) ==> (match r {
                Result::Ok(c) => c matches Command::SIsMember(g) && value@.len() == 3 && args_text(
                    value@,
                    1,
                    3,
                ) && encode_utf8(g.key@) == value@[1]->Bulk_0 && encode_utf8(g.member@) == value@[
                    2
                ]->Bulk_0,
                Result::Err(e) => (e == CommandError::InvalidCommand <==> value@.len() != 3) && (e
                    == CommandError::InvalidArgument <==> value@.len() == 3 && !args_text(
                    value@,
                    1,
                    3,
                )),
            }),
    {
        proof {
            lemma_names_distinct();
        }
        let named: u8 = {
            match &value.0 {
                v => {
                    if v.len() == 0 {
                        0
                    } else {
                        match &v[0] {
                            RespFrame::BulkString(bs) => {
                                if bytes_lower_is(&bs.0, &[103u8, 101u8, 116u8]) {
                                    1
                                } else if bytes_lower_is(&bs.0, &[115u8, 101u8, 116u8]) {
                                    2
                                } else if bytes_lower_is(&bs.0, &[104u8, 103u8, 101u8, 116u8]) {
                                    3
                                } else if bytes_lower_is(&bs.0, &[104u8, 115u8, 101u8, 116u8]) {
                                    4
                                } else if bytes_lower_is(
                                    &bs.0,
                                    &[104u8, 103u8, 101u8, 116u8, 97u8, 108u8, 108u8],
                                ) {
                                    5
                                } else if bytes_lower_is(&bs.0, &[115u8, 97u8, 100u8, 100u8]) {
                                    6
                                } else if bytes_lower_is(
                                    &bs.0,
                                    &[115u8, 105u8, 115u8, 109u8, 101u8, 109u8, 98u8, 101u8, 114u8],
                                ) {
                                    7
                                } else {
                                    0
                                }
                            },
                            _ => 0,
                        }
                    }
                },
            }
        };
        if named == 1 {
            match Get::try_from(value) {
                Ok(c) => Ok(Command::Get(c)),
                Err(e) => Err(e),
            }
        } else if named == 2 {
            match SetCmd::try_from(value) {
                Ok(c) => Ok(Command::SetCmd(c)),
                Err(e) => Err(e),
            }
        } else if named == 3 {
            match HGet::try_from(value) {
                Ok(c) => Ok(Command::HGet(c)),
                Err(e) => Err(e),
            }
        } else if named == 4 {
            match HSet::try_from(value) {
                Ok(c) => Ok(Command::HSet(c)),
                Err(e) => Err(e),
            }
        } else if named == 5 {
            match HGetAll::try_from(value) {
                Ok(c) => Ok(Command::HGetAll(c)),
                Err(e) => Err(e),
            }
        } else if named == 6 {
            match SAdd::try_from(value) {
                Ok(c) => Ok(Command::SAdd(c)),
                Err(e) => Err(e),
            }
        } else if named == 7 {
            match SIsMember::try_from(value) {
                Ok(c) => Ok(Command::SIsMember(c)),
                Err(e) => Err(e),
            }
        } else {
            proof {
                assert(!known_name(value@));
            }
            Err(CommandError::InvalidCommand)
        }
    }

    /// Executes the command against the store and produces its reply frame;
    /// the effect and the reply are those of the underlying command.
    pub fn execute(self, backend: &mut Backend) -> (r: RespFrame)
        requires
            old(backend).wf(),
        ensures
            final(backend).wf(),
            match self {
                Command::Get(c) => *final(backend) == *old(backend) && r@ == (
                if old(backend).scalars().contains_key(c.key@) {
                    old(backend).scalars()[c.key@]
                } else {
                    FrameView::NullBulk
                }),
                Command::SetCmd(c) => final(backend).scalars() == old(backend).scalars().insert(
                    c.key@,
                    c.value@,
                ) && final(backend).hashes() == old(backend).hashes() && final(backend).sets()
                    == old(backend).sets() && r@ == FrameView::Int(1),
                Command::HGet(c) => *final(backend) == *old(backend) && r@ == (
                if old(backend).hashes().contains_key(c.key@) && old(backend).hashes()[
                    c.key@
                ].contains_key(c.field@) {
                    old(backend).hashes()[c.key@][c.field@]
                } else {
                    FrameView::NullBulk
                }),
                Command::HSet(c) => final(backend).hashes() == old(backend).hashes().insert(
                    c.key@,
                    (if old(backend).hashes().contains_key(c.key@) {
                        old(backend).hashes()[c.key@]
                    } else {
                        Map::empty()
                    }).insert(c.field@, c.value@),
                ) && final(backend).scalars() == old(backend).scalars() && final(backend).sets()
                    == old(backend).sets() && r@ == FrameView::Int(1),
                Command::HGetAll(c) => *final(backend) == *old(backend) && (
                if old(backend).hashes().contains_key(c.key@) {
                    exists|ps: Seq<(Seq<char>, FrameView)>|
                        pairs_map(ps) == old(backend).hashes()[c.key@] && r@ == FrameView::Arr(
                            #[trigger] pairs_frames(ps),
                        )
                } else {
                    r@ == FrameView::NullArr
                }),
                Command::SAdd(c) => final(backend).sets() == sadd_fold(
                    old(backend).sets(),
                    c.key@,
                    strs_view(c.members@),
                ) && final(backend).scalars() == old(backend).scalars() && final(backend).hashes()
                    == old(backend).hashes() && r@ == FrameView::Arr(
                    sadd_flags(old(backend).sets(), c.key@, strs_view(c.members@)),
                ),
                Command::SIsMember(c) => *final(backend) == *old(backend) && r@ == FrameView::Int(
                    if spec_sismember(old(backend).sets(), c.key@, c.member@) {
                        1
                    } else {
                        0
                    },
                ),
            },
    {
        match self {
            Command::Get(c) => c.execute(backend),
            Command::SetCmd(c) => c.execute(backend),
            Command::HGet(c) => c.execute(backend),
            Command::HSet(c) => c.execute(backend),
            Command::HGetAll(c) => c.execute(backend),
            Command::SAdd(c) => c.execute(backend),
            Command::SIsMember(c) => c.execute(backend),
        }
    }
}

} // verus!
