//! The in-memory store: three independent keyed maps (scalar values,
//! hashes, sets), each modelled in contracts as a `Map` from key characters
//! to its mathematical contents.
//!
//! The store is a plain value with `&mut` writers; per-key serialization
//! across connections is the owner's concern (a lock or a single writer),
//! outside this crate.

use crate::frame::{clone_frame, frame_view, FrameView, RespFrame};
use vstd::prelude::*;

verus! {

broadcast use vstd::std_specs::vec::group_vec_axioms, vstd::seq::group_seq_axioms;

/// Relies on `str`'s `PartialEq`: equality of the character contents.
#[verifier::external_body]
fn str_eq(a: &str, b: &str) -> (r: bool)
    ensures
        r == (a@ == b@),
{
    a == b
}

/// The map an association list stands for: later entries win, `f` maps each
/// stored item to its mathematical value.
pub open spec fn assoc_view<V, W>(l: Seq<(String, V)>, f: spec_fn(V) -> W) -> Map<Seq<char>, W>
    decreases l.len(),
{
    if l.len() == 0 {
        Map::empty()
    } else {
        assoc_view(l.drop_last(), f).insert(l.last().0@, f(l.last().1))
    }
}

/// No two entries share a key.
pub open spec fn keys_uniq<V>(l: Seq<(String, V)>) -> bool {
    forall|i: int, j: int| 0 <= i < j < l.len() ==> (#[trigger] l[i]).0@ != (#[trigger] l[j]).0@
}

/// The set of members a list stands for.
pub open spec fn members_view(l: Seq<String>) -> Set<Seq<char>>
    decreases l.len(),
{
    if l.len() == 0 {
        Set::empty()
    } else {
        members_view(l.drop_last()).insert(l.last()@)
    }
}

/// The item-view of a scalar entry.
pub open spec fn scalar_vf() -> spec_fn(RespFrame) -> FrameView {
    |v: RespFrame| frame_view(v)
}

/// The item-view of a hash entry: its own association list as a map.
pub open spec fn hash_vf() -> spec_fn(Vec<(String, RespFrame)>) -> Map<Seq<char>, FrameView> {
    |v: Vec<(String, RespFrame)>| assoc_view(v@, scalar_vf())
}

/// The item-view of a set entry.
pub open spec fn set_vf() -> spec_fn(Vec<String>) -> Set<Seq<char>> {
    |v: Vec<String>| members_view(v@)
}

/// A key maps to some entry exactly when the view has that key.
proof fn lemma_assoc_contains<V, W>(l: Seq<(String, V)>, f: spec_fn(V) -> W, k: Seq<char>)
    ensures
        assoc_view(l, f).contains_key(k) <==> exists|i: int|
            0 <= i < l.len() && (#[trigger] l[i]).0@ == k,
    decreases l.len(),
{
    if l.len() > 0 {
        lemma_assoc_contains(l.drop_last(), f, k);
        let dl = l.drop_last();
        assert(forall|i: int| 0 <= i < l.len() - 1 ==> (#[trigger] dl[i]) == l[i]);
        if l.last().0@ == k {
            assert(l[l.len() - 1].0@ == k);
        } else {
            if exists|i: int| 0 <= i < l.len() && (#[trigger] l[i]).0@ == k {
                let i = choose|i: int| 0 <= i < l.len() && (#[trigger] l[i]).0@ == k;
                assert(i < l.len() - 1);
                assert(dl[i] == l[i]);
                assert(exists|t: int| 0 <= t < dl.len() && (#[trigger] dl[t]).0@ == k);
            }
            if exists|t: int| 0 <= t < dl.len() && (#[trigger] dl[t]).0@ == k {
                let t = choose|t: int| 0 <= t < dl.len() && (#[trigger] dl[t]).0@ == k;
                assert(l[t].0@ == k);
            }
        }
    }
}

/// With unique keys, the entry at `i` gives its key's value in the view.
proof fn lemma_assoc_at<V, W>(l: Seq<(String, V)>, f: spec_fn(V) -> W, i: int)
    requires
        0 <= i < l.len(),
        keys_uniq(l),
    ensures
        assoc_view(l, f).contains_key(l[i].0@),
        assoc_view(l, f)[l[i].0@] == f(l[i].1),
    decreases l.len(),
{
    if i == l.len() - 1 {
    } else {
        assert(keys_uniq(l.drop_last()));
        assert(l.drop_last()[i] == l[i]);
        lemma_assoc_at(l.drop_last(), f, i);
        assert(l.last().0@ != l[i].0@);
    }
}

/// With unique keys, replacing the item at `i` (key kept) updates exactly
/// that key in the view.
proof fn lemma_assoc_update<V, W>(
    l: Seq<(String, V)>,
    f: spec_fn(V) -> W,
    i: int,
    k2: String,
    v: V,
)
    requires
        0 <= i < l.len(),
        keys_uniq(l),
        k2@ == l[i].0@,
    ensures
        assoc_view(l.update(i, (k2, v)), f) == assoc_view(l, f).insert(k2@, f(v)),
    decreases l.len(),
{
    let lu = l.update(i, (k2, v));
    if i == l.len() - 1 {
        assert(lu.drop_last() =~= l.drop_last());
        assert(assoc_view(lu, f) == assoc_view(l.drop_last(), f).insert(k2@, f(v)));
        assert(assoc_view(l.drop_last(), f).insert(l.last().0@, f(l.last().1)).insert(k2@, f(v))
            =~= assoc_view(l.drop_last(), f).insert(k2@, f(v)));
    } else {
        assert(keys_uniq(l.drop_last()));
        assert(l.drop_last()[i] == l[i]);
        lemma_assoc_update(l.drop_last(), f, i, k2, v);
        assert(lu.drop_last() =~= l.drop_last().update(i, (k2, v)));
        assert(lu.last() == l.last());
        assert(l.last().0@ != k2@);
        assert(assoc_view(l.drop_last(), f).insert(k2@, f(v)).insert(l.last().0@, f(l.last().1))
            =~= assoc_view(l.drop_last(), f).insert(l.last().0@, f(l.last().1)).insert(
            k2@,
            f(v),
        ));
    }
}

/// Lists equal entry by entry under the view have the same map view.
proof fn lemma_assoc_congruence<V, W>(l1: Seq<(String, V)>, l2: Seq<(String, V)>, f: spec_fn(
    V,
) -> W)
    requires
        l1.len() == l2.len(),
        forall|i: int|
            0 <= i < l1.len() ==> (#[trigger] l1[i]).0@ == (#[trigger] l2[i]).0@ && f(l1[i].1) == f(
                l2[i].1,
            ),
    ensures
        assoc_view(l1, f) == assoc_view(l2, f),
    decreases l1.len(),
{
    if l1.len() > 0 {
        assert(forall|i: int|
            0 <= i < l1.len() - 1 ==> (#[trigger] l1.drop_last()[i]) == l1[i] && (
            #[trigger] l2.drop_last()[i]) == l2[i]);
        lemma_assoc_congruence(l1.drop_last(), l2.drop_last(), f);
        assert(l1[l1.len() - 1].0@ == l2[l1.len() - 1].0@);
        assert(f(l1[l1.len() - 1].1) == f(l2[l1.len() - 1].1));
    }
}

/// A member is in the list exactly when the set view holds it.
proof fn lemma_members_contains(l: Seq<String>, m: Seq<char>)
    ensures
        members_view(l).contains(m) <==> exists|i: int| 0 <= i < l.len() && (#[trigger] l[i])@
            == m,
    decreases l.len(),
{
    if l.len() > 0 {
        lemma_members_contains(l.drop_last(), m);
        let dl = l.drop_last();
        assert(forall|i: int| 0 <= i < l.len() - 1 ==> (#[trigger] dl[i]) == l[i]);
        if l.last()@ == m {
            assert(l[l.len() - 1]@ == m);
        } else {
            if exists|i: int| 0 <= i < l.len() && (#[trigger] l[i])@ == m {
                let i = choose|i: int| 0 <= i < l.len() && (#[trigger] l[i])@ == m;
                assert(i < l.len() - 1);
                assert(dl[i] == l[i]);
                assert(exists|t: int| 0 <= t < dl.len() && (#[trigger] dl[t])@ == m);
            }
            if exists|t: int| 0 <= t < dl.len() && (#[trigger] dl[t])@ == m {
                let t = choose|t: int| 0 <= t < dl.len() && (#[trigger] dl[t])@ == m;
                assert(l[t]@ == m);
            }
        }
    }
}

/// Finds the index of an entry with the given key.
fn find_key<V>(l: &Vec<(String, V)>, key: &str) -> (r: Option<usize>)
    ensures
        match r {
            Option::Some(i) => i < l@.len() && l@[i as int].0@ == key@,
            Option::None => forall|i: int| 0 <= i < l@.len() ==> (#[trigger] l@[i]).0@ != key@,
        },
{
    let mut i: usize = 0;
    while i < l.len()
        invariant
            i <= l@.len(),
            forall|j: int| 0 <= j < i ==> (#[trigger] l@[j]).0@ != key@,
        decreases l@.len() - i,
    {
        if str_eq(l[i].0.as_str(), key) {
            return Some(i);
        }
        i = i + 1;
    }
    None
}

/// Finds the index of a member in a member list.
fn find_member(l: &Vec<String>, m: &str) -> (r: Option<usize>)
    ensures
        match r {
            Option::Some(i) => i < l@.len() && l@[i as int]@ == m@,
            Option::None => forall|i: int| 0 <= i < l@.len() ==> (#[trigger] l@[i])@ != m@,
        },
{
    let mut i: usize = 0;
    while i < l.len()
        invariant
            i <= l@.len(),
            forall|j: int| 0 <= j < i ==> (#[trigger] l@[j])@ != m@,
        decreases l@.len() - i,
    {
        if str_eq(l[i].as_str(), m) {
            return Some(i);
        }
        i = i + 1;
    }
    None
}

/// The set of members stored under a key, empty when the key is absent.
pub open spec fn set_members(m: Map<Seq<char>, Set<Seq<char>>>, k: Seq<char>) -> Set<Seq<char>> {
    if m.contains_key(k) {
        m[k]
    } else {
        Set::empty()
    }
}

/// What one `sadd` does to the sets map, and what it answers: the member
/// joins the key's set, and the answer is whether it was new.
pub open spec fn spec_sadd(m: Map<Seq<char>, Set<Seq<char>>>, k: Seq<char>, mem: Seq<char>) -> (
    Map<Seq<char>, Set<Seq<char>>>,
    bool,
) {
    (m.insert(k, set_members(m, k).insert(mem)), !set_members(m, k).contains(mem))
}

/// What `sismember` answers.
pub open spec fn spec_sismember(
    m: Map<Seq<char>, Set<Seq<char>>>,
    k: Seq<char>,
    mem: Seq<char>,
) -> bool {
    m.contains_key(k) && m[k].contains(mem)
}

/// The store: scalar values, hashes and sets, in three independent maps.
pub struct Backend {
    map: Vec<(String, RespFrame)>,
    hmap: Vec<(String, Vec<(String, RespFrame)>)>,
    hset: Vec<(String, Vec<String>)>,
}

impl Backend {
    /// Keys are unique in each map, and fields are unique in each hash.
    pub closed spec fn wf(&self) -> bool {
        &&& keys_uniq(self.map@)
        &&& keys_uniq(self.hmap@)
        &&& keys_uniq(self.hset@)
        &&& forall|i: int|
            0 <= i < self.hmap@.len() ==> keys_uniq((#[trigger] self.hmap@[i]).1@)
    }

    /// The scalar map: key characters to frame values.
    pub closed spec fn scalars(&self) -> Map<Seq<char>, FrameView> {
        assoc_view(self.map@, scalar_vf())
    }

    /// The hash map: key characters to field-to-frame maps.
    pub closed spec fn hashes(&self) -> Map<Seq<char>, Map<Seq<char>, FrameView>> {
        assoc_view(self.hmap@, hash_vf())
    }

    /// The sets map: key characters to member sets.
    pub closed spec fn sets(&self) -> Map<Seq<char>, Set<Seq<char>>> {
        assoc_view(self.hset@, set_vf())
    }

    /// A fresh, empty store.
    pub fn new() -> (b: Backend)
        ensures
            b.wf(),
            b.scalars() == Map::<Seq<char>, FrameView>::empty(),
            b.hashes() == Map::<Seq<char>, Map<Seq<char>, FrameView>>::empty(),
            b.sets() == Map::<Seq<char>, Set<Seq<char>>>::empty(),
    {
        Backend { map: Vec::new(), hmap: Vec::new(), hset: Vec::new() }
    }

    /// The scalar value stored under `key`, or absence; no side effect.
    pub fn get(&self, key: &str) -> (r: Option<RespFrame>)
        requires
            self.wf(),
        ensures
            match r {
                Option::Some(f) => self.scalars().contains_key(key@) && f@ == self.scalars()[key@],
                Option::None => !self.scalars().contains_key(key@),
            },
    {
        match find_key(&self.map, key) {
            Some(i) => {
                proof {
                    lemma_assoc_at(self.map@, scalar_vf(), i as int);
                }
                Some(clone_frame(&self.map[i].1))
            },
            None => {
                proof {
                    lemma_assoc_contains(self.map@, scalar_vf(), key@);
                }
                None
            },
        }
    }

    /// Stores `value` under `key`, inserting or overwriting; always
    /// succeeds, and touches nothing but that scalar entry.
    pub fn set(&mut self, key: String, value: RespFrame)
        requires
            old(self).wf(),
        ensures
            final(self).wf(),
            final(self).scalars() == old(self).scalars().insert(key@, value@),
            final(self).hashes() == old(self).hashes(),
            final(self).sets() == old(self).sets(),
    {
        let ghost gk = key;
        let ghost gv = value;
        let ghost l0 = self.map@;
        match find_key(&self.map, key.as_str()) {
            Some(i) => {
                self.map[i] = (key, value);
                proof {
                    lemma_assoc_update(l0, scalar_vf(), i as int, gk, gv);
                    assert(self.map@ == l0.update(i as int, (gk, gv)));
                    assert(forall|t: int|
                        0 <= t < self.map@.len() ==> (#[trigger] self.map@[t]).0@ == l0[t].0@);
                }
            },
            None => {
                self.map.push((key, value));
                proof {
                    assert(self.map@.drop_last() =~= l0);
                    assert(self.map@.last() == (gk, gv));
                }
            },
        }
    }

    /// The value of `field` in the hash at `key`; absence when either the
    /// key or the field is missing.
    pub fn hget(&self, key: &str, field: &str) -> (r: Option<RespFrame>)
        requires
            self.wf(),
        ensures
            match r {
                Option::Some(f) => self.hashes().contains_key(key@) && self.hashes()[
                    key@
                ].contains_key(field@) && f@ == self.hashes()[key@][field@],
                Option::None => !self.hashes().contains_key(key@) || !self.hashes()[
                    key@
                ].contains_key(field@),
            },
    {
        match find_key(&self.hmap, key) {
            Some(i) => {
                proof {
                    lemma_assoc_at(self.hmap@, hash_vf(), i as int);
                }
                match find_key(&self.hmap[i].1, field) {
                    Some(j) => {
                        proof {
                            lemma_assoc_at(self.hmap@[i as int].1@, scalar_vf(), j as int);
                        }
                        Some(clone_frame(&self.hmap[i].1[j].1))
                    },
                    None => {
                        proof {
                            lemma_assoc_contains(self.hmap@[i as int].1@, scalar_vf(), field@);
                        }
                        None
                    },
                }
            },
            None => {
                proof {
                    lemma_assoc_contains(self.hmap@, hash_vf(), key@);
                }
                None
            },
        }
    }

    /// Stores `value` under `field` in the hash at `key`, creating the hash
    /// when the key is new; touches nothing but that hash entry.
    pub fn hset(&mut self, key: String, field: String, value: RespFrame)
        requires
            old(self).wf(),
        ensures
            final(self).wf(),
            final(self).hashes() == old(self).hashes().insert(
                key@,
                (if old(self).hashes().contains_key(key@) {
                    old(self).hashes()[key@]
                } else {
                    Map::empty()
                }).insert(field@, value@),
            ),
            final(self).scalars() == old(self).scalars(),
            final(self).sets() == old(self).sets(),
    {
        let ghost gk = key;
        let ghost gf = field;
        let ghost gv = value;
        let ghost l0 = self.hmap@;
        match find_key(&self.hmap, key.as_str()) {
            Some(i) => {
                proof {
                    lemma_assoc_at(l0, hash_vf(), i as int);
                }
                let ghost inner0 = l0[i as int].1;
                match find_key(&self.hmap[i].1, field.as_str()) {
                    Some(j) => {
                        self.hmap[i].1[j] = (field, value);
                        proof {
                            let inner1 = self.hmap@[i as int].1;
                            assert(inner1@ == inner0@.update(j as int, (gf, gv)));
                            lemma_assoc_update(inner0@, scalar_vf(), j as int, gf, gv);
                            assert(self.hmap@ == l0.update(i as int, (l0[i as int].0, inner1)));
                            lemma_assoc_update(l0, hash_vf(), i as int, l0[i as int].0, inner1);
                            assert(forall|t: int|
                                0 <= t < self.hmap@.len() ==> (#[trigger] self.hmap@[t]).0@
                                    == l0[t].0@);
                        }
                    },
                    None => {
                        self.hmap[i].1.push((field, value));
                        proof {
                            let inner1 = self.hmap@[i as int].1;
                            assert(inner1@.drop_last() =~= inner0@);
                            assert(inner1@.last() == (gf, gv));
                            assert(assoc_view(inner1@, scalar_vf()) == assoc_view(
                                inner0@,
                                scalar_vf(),
                            ).insert(gf@, gv@));
                            assert(self.hmap@ == l0.update(i as int, (l0[i as int].0, inner1)));
                            lemma_assoc_update(l0, hash_vf(), i as int, l0[i as int].0, inner1);
                            assert(forall|t: int|
                                0 <= t < self.hmap@.len() ==> (#[trigger] self.hmap@[t]).0@
                                    == l0[t].0@);
                        }
                    },
                }
            },
            None => {
                let mut inner: Vec<(String, RespFrame)> = Vec::new();
                inner.push((field, value));
                let ghost ginner = inner;
                self.hmap.push((key, inner));
                proof {
                    lemma_assoc_contains(l0, hash_vf(), gk@);
                    assert(ginner@.drop_last() =~= Seq::<(String, RespFrame)>::empty());
                    assert(assoc_view(Seq::<(String, RespFrame)>::empty(), scalar_vf())
                        =~= Map::<Seq<char>, FrameView>::empty());
                    assert(scalar_vf()(gv) == gv@);
                    assert(ginner@.last() == (gf, gv));
                    assert(assoc_view(ginner@, scalar_vf()) =~= Map::<Seq<char>,
                        FrameView>::empty().insert(gf@, gv@));
                    assert(self.hmap@.drop_last() =~= l0);
                    assert(self.hmap@.last() == (gk, ginner));
                }
            },
        }
    }

    /// Adds `member` to the set at `key`, creating the set when the key is
    /// new; answers whether the member was newly inserted. Touches nothing
    /// but that set entry.
    pub fn sadd(&mut self, key: String, member: String) -> (r: bool)
        requires
            old(self).wf(),
        ensures
            final(self).wf(),
            final(self).sets() == spec_sadd(old(self).sets(), key@, member@).0,
            r == spec_sadd(old(self).sets(), key@, member@).1,
            final(self).scalars() == old(self).scalars(),
            final(self).hashes() == old(self).hashes(),
    {
        match find_key(&self.hset, key.as_str()) {
            Some(i) => {
                proof {
                    lemma_assoc_at(self.hset@, set_vf(), i as int);
                }
                match find_member(&self.hset[i].1, member.as_str()) {
                    Some(_j) => {
                        proof {
                            lemma_members_contains(self.hset@[i as int].1@, member@);
                            assert(members_view(self.hset@[i as int].1@).insert(member@)
                                =~= members_view(self.hset@[i as int].1@));
                            assert(self.sets().insert(key@, self.sets()[key@]) =~= self.sets());
                        }
                        false
                    },
                    None => {
                        let ghost gm = member;
                        let ghost l0 = self.hset@;
                        let ghost inner0 = l0[i as int].1;
                        proof {
                            lemma_members_contains(inner0@, gm@);
                        }
                        self.hset[i].1.push(member);
                        proof {
                            let inner1 = self.hset@[i as int].1;
                            assert(inner1@.drop_last() =~= inner0@);
                            assert(inner1@.last() == gm);
                            assert(self.hset@ == l0.update(i as int, (l0[i as int].0, inner1)));
                            lemma_assoc_update(l0, set_vf(), i as int, l0[i as int].0, inner1);
                            assert(forall|t: int|
                                0 <= t < self.hset@.len() ==> (#[trigger] self.hset@[t]).0@
                                    == l0[t].0@);
                        }
                        true
                    },
                }
            },
            None => {
                let ghost gk = key;
                let ghost gm = member;
                let ghost l0 = self.hset@;
                proof {
                    lemma_assoc_contains(l0, set_vf(), gk@);
                }
                let mut ms: Vec<String> = Vec::new();
                ms.push(member);
                let ghost gms = ms;
                self.hset.push((key, ms));
                proof {
                    assert(gms@.drop_last() =~= Seq::<String>::empty());
                    assert(members_view(Seq::<String>::empty()) =~= Set::<Seq<char>>::empty());
                    assert(gms@.last() == gm);
                    assert(members_view(gms@) =~= Set::<Seq<char>>::empty().insert(gm@));
                    assert(self.hset@.drop_last() =~= l0);
                    assert(self.hset@.last() == (gk, gms));
                }
                true
            },
        }
    }

    /// Whether `member` is in the set at `key`; false when the key or the
    /// member is absent. No side effect.
    pub fn sismember(&self, key: &str, member: &str) -> (r: bool)
        requires
            self.wf(),
        ensures
            r == spec_sismember(self.sets(), key@, member@),
    {
        match find_key(&self.hset, key) {
            Some(i) => {
                proof {
                    lemma_assoc_at(self.hset@, set_vf(), i as int);
                }
                match find_member(&self.hset[i].1, member) {
                    Some(_j) => {
                        proof {
                            lemma_members_contains(self.hset@[i as int].1@, member@);
                        }
                        true
                    },
                    None => {
                        proof {
                            lemma_members_contains(self.hset@[i as int].1@, member@);
                        }
                        false
                    },
                }
            },
            None => {
                proof {
                    lemma_assoc_contains(self.hset@, set_vf(), key@);
                }
                false
            },
        }
    }

    /// A point-in-time copy of the hash at `key`: its field/value pairs,
    /// fields unique, standing for exactly the stored map; absence when the
    /// key is missing.
    pub fn hgetall(&self, key: &str) -> (r: Option<Vec<(String, RespFrame)>>)
        requires
            self.wf(),
        ensures
            match r {
                Option::Some(ps) => self.hashes().contains_key(key@) && keys_uniq(ps@)
                    && assoc_view(ps@, scalar_vf()) == self.hashes()[key@],
                Option::None => !self.hashes().contains_key(key@),
            },
    {
        match find_key(&self.hmap, key) {
            Some(i) => {
                proof {
                    lemma_assoc_at(self.hmap@, hash_vf(), i as int);
                }
                let src = &self.hmap[i].1;
                let mut ps: Vec<(String, RespFrame)> = Vec::new();
                let mut j: usize = 0;
                while j < src.len()
                    invariant
                        j <= src@.len(),
                        ps@.len() == j as int,
                        forall|t: int|
                            0 <= t < j ==> (#[trigger] ps@[t]).0@ == src@[t].0@ && ps@[t].1@
                                == src@[t].1@,
                    decreases src@.len() - j,
                {
                    let ks = src[j].0.clone();
                    let vf = clone_frame(&src[j].1);
                    ps.push((ks, vf));
                    j = j + 1;
                }
                proof {
                    lemma_assoc_congruence(ps@, self.hmap@[i as int].1@, scalar_vf());
                }
                Some(ps)
            },
            None => {
                proof {
                    lemma_assoc_contains(self.hmap@, hash_vf(), key@);
                }
                None
            },
        }
    }
}

impl Default for Backend {
    /// The default store is the fresh, empty one.
    fn default() -> (b: Backend)
        ensures
            b.wf(),
            b.scalars() == Map::<Seq<char>, FrameView>::empty(),
            b.hashes() == Map::<Seq<char>, Map<Seq<char>, FrameView>>::empty(),
            b.sets() == Map::<Seq<char>, Set<Seq<char>>>::empty(),
    {
        Backend::new()
    }
}

} // verus!
