//! The records that the commit log stores, and how each turns into a
//! `Value` and back. Record fields travel by position.
use crate::check::{SimpleName, UnixTs};
use crate::encode::{
    len_fits, lemma_pairs_view, lemma_values_view, typeptr_is_wf, value_is_wf, value_wf,
};
use crate::meta::{std_code_ok, CommitPtr, ObjectPtr, StdPtr, TypePtr};
use crate::types::{pairs_view, value_view, values_view, Type, TypeV, Value, ValueV};
use vstd::prelude::*;

verus! {

/// Names one attribute of one trait of one object: what a revision changes.
#[derive(Clone, Copy, Debug, PartialEq, Eq, PartialOrd, Ord, Hash)]
pub struct RevPtr {
    pub object: ObjectPtr,
    pub trait_type: TypePtr,
    pub attr: u8,
}

/// One change to an attribute.
#[derive(Debug, PartialEq, Eq)]
pub enum Rev {
    Const(Value),
    Mut(Value),
    IterListAdd(Vec<Value>),
    IterSetAdd(Vec<Value>),
    IterSetRemove(Vec<Value>),
}

/// A versioned record: its key and the revisions it makes.
#[derive(Debug, PartialEq, Eq)]
pub struct Commit {
    pub ptr: CommitPtr,
    pub revs: Vec<(RevPtr, Rev)>,
}

/// The model of a `Rev`.
pub enum RevV {
    Const(ValueV),
    Mut(ValueV),
    IterListAdd(Seq<ValueV>),
    IterSetAdd(Seq<ValueV>),
    IterSetRemove(Seq<ValueV>),
}

/// The model of a `Commit`.
pub struct CommitV {
    pub ptr: CommitPtr,
    pub revs: Seq<(RevPtr, RevV)>,
}

impl View for Rev {
    type V = RevV;

    open spec fn view(&self) -> RevV {
        match self {
            Rev::Const(v) => RevV::Const(v@),
            Rev::Mut(v) => RevV::Mut(v@),
            Rev::IterListAdd(vs) => RevV::IterListAdd(values_view(vs@)),
            Rev::IterSetAdd(vs) => RevV::IterSetAdd(values_view(vs@)),
            Rev::IterSetRemove(vs) => RevV::IterSetRemove(values_view(vs@)),
        }
    }
}

pub open spec fn revs_view(s: Seq<(RevPtr, Rev)>) -> Seq<(RevPtr, RevV)> {
    Seq::new(s.len(), |i: int| (s[i].0, s[i].1@))
}

impl View for Commit {
    type V = CommitV;

    open spec fn view(&self) -> CommitV {
        CommitV { ptr: self.ptr, revs: revs_view(self.revs@) }
    }
}

/// The registered pointer with code `n`.
pub open spec fn std_ptr(n: u16) -> TypePtr {
    TypePtr::Std(StdPtr(n))
}

/// Registered codes of the stored record types.
pub const REV_CODE: u16 = 6;

pub const REV_PTR_CODE: u16 = 7;

pub const COMMIT_PTR_CODE: u16 = 8;

pub const COMMIT_CODE: u16 = 9;

pub open spec fn commitptr_value(c: CommitPtr) -> ValueV {
    ValueV::Struct(
        std_ptr(COMMIT_PTR_CODE),
        seq![ValueV::Timestamp(c.ts), ValueV::ObjectPtr(c.opr), ValueV::UInt16(c.seq)],
    )
}

pub open spec fn commitptr_from_value(v: ValueV) -> Option<CommitPtr> {
    match v {
        ValueV::Struct(_, fs) => if fs.len() == 3 {
            match (fs[0], fs[1], fs[2]) {
                (ValueV::Timestamp(ts), ValueV::ObjectPtr(opr), ValueV::UInt16(seq)) => Some(
                    CommitPtr { ts, opr, seq },
                ),
                _ => None,
            }
        } else {
            None
        },
        _ => None,
    }
}

pub open spec fn revptr_value(r: RevPtr) -> ValueV {
    ValueV::Struct(
        std_ptr(REV_PTR_CODE),
        seq![ValueV::ObjectPtr(r.object), ValueV::TypePtr(r.trait_type), ValueV::UInt8(r.attr)],
    )
}

pub open spec fn revptr_from_value(v: ValueV) -> Option<RevPtr> {
    match v {
        ValueV::Struct(_, fs) => if fs.len() == 3 {
            match (fs[0], fs[1], fs[2]) {
                (ValueV::ObjectPtr(object), ValueV::TypePtr(trait_type), ValueV::UInt8(attr)) => Some(
                    RevPtr { object, trait_type, attr },
                ),
                _ => None,
            }
        } else {
            None
        },
        _ => None,
    }
}

pub open spec fn rev_value(r: RevV) -> ValueV {
    match r {
        RevV::Const(v) => ValueV::Enum(std_ptr(REV_CODE), 0, Box::new(v)),
        RevV::Mut(v) => ValueV::Enum(std_ptr(REV_CODE), 1, Box::new(v)),
        RevV::IterListAdd(vs) => ValueV::Enum(
            std_ptr(REV_CODE),
            2,
            Box::new(ValueV::List(TypeV::Unknown, vs)),
        ),
        RevV::IterSetAdd(vs) => ValueV::Enum(
            std_ptr(REV_CODE),
            3,
            Box::new(ValueV::List(TypeV::Unknown, vs)),
        ),
        RevV::IterSetRemove(vs) => ValueV::Enum(
            std_ptr(REV_CODE),
            4,
            Box::new(ValueV::List(TypeV::Unknown, vs)),
        ),
    }
}

pub open spec fn rev_from_value(v: ValueV) -> Option<RevV> {
    match v {
        ValueV::Enum(_, ev, x) => if ev == 0 {
            Some(RevV::Const(*x))
        } else if ev == 1 {
            Some(RevV::Mut(*x))
        } else if ev <= 4 {
            match *x {
                ValueV::List(_, vs) => Some(
                    if ev == 2 {
                        RevV::IterListAdd(vs)
                    } else if ev == 3 {
                        RevV::IterSetAdd(vs)
                    } else {
                        RevV::IterSetRemove(vs)
                    },
                ),
                _ => None,
            }
        } else {
            None
        },
        _ => None,
    }
}

pub open spec fn commit_value(c: CommitV) -> ValueV {
    ValueV::Struct(
        std_ptr(COMMIT_CODE),
        seq![
            commitptr_value(c.ptr),
            ValueV::Dict(
                TypeV::Struct(std_ptr(REV_PTR_CODE)),
                TypeV::Struct(std_ptr(REV_CODE)),
                Seq::new(
                    c.revs.len(),
                    |i: int| (revptr_value(c.revs[i].0), rev_value(c.revs[i].1)),
                ),
            ),
        ],
    )
}

/// Whether every pair of `ps` turns into a revision pointer and a revision.
pub open spec fn pairs_are_revs(ps: Seq<(ValueV, ValueV)>) -> bool {
    forall|i: int|
        0 <= i < ps.len() ==> (#[trigger] revptr_from_value(ps[i].0)) is Some && rev_from_value(
            ps[i].1,
        ) is Some
}

pub open spec fn commit_from_value(v: ValueV) -> Option<CommitV> {
    match v {
        ValueV::Struct(_, fs) => if fs.len() == 2 {
            match commitptr_from_value(fs[0]) {
                Some(ptr) => match fs[1] {
                    ValueV::Dict(_, _, ps) => if pairs_are_revs(ps) {
                        Some(
                            CommitV {
                                ptr,
                                revs: Seq::new(
                                    ps.len(),
                                    |i: int|
                                        (
                                            revptr_from_value(ps[i].0)->Some_0,
                                            rev_from_value(ps[i].1)->Some_0,
                                        ),
                                ),
                            },
                        )
                    } else {
                        None
                    },
                    _ => None,
                },
                None => None,
            }
        } else {
            None
        },
        _ => None,
    }
}

impl CommitPtr {
    pub fn serialize(self) -> (r: Value)
        ensures
            r@ == commitptr_value(self),
    {
        let mut fs: Vec<Value> = Vec::new();
        fs.push(Value::Timestamp(self.ts));
        fs.push(Value::ObjectPtr(self.opr));
        fs.push(Value::UInt16(self.seq));
        proof {
            lemma_values_view(fs@);
            assert(values_view(fs@) =~= seq![
                ValueV::Timestamp(self.ts),
                ValueV::ObjectPtr(self.opr),
                ValueV::UInt16(self.seq),
            ]);
        }
        Value::Struct(TypePtr::from_u16_unchecked(COMMIT_PTR_CODE), fs)
    }

    pub fn deserialize(val: Value) -> (r: Option<CommitPtr>)
        ensures
            r == commitptr_from_value(val@),
    {
        match val {
            Value::Struct(_, fs) => {
                proof {
                    lemma_values_view(fs@);
                }
                if fs.len() != 3 {
                    return None;
                }
                match (&fs[0], &fs[1], &fs[2]) {
                    (Value::Timestamp(ts), Value::ObjectPtr(opr), Value::UInt16(seq)) => Some(
                        CommitPtr { ts: *ts, opr: *opr, seq: *seq },
                    ),
                    _ => None,
                }
            },
            _ => None,
        }
    }
}

impl RevPtr {
    pub fn serialize(self) -> (r: Value)
        ensures
            r@ == revptr_value(self),
    {
        let mut fs: Vec<Value> = Vec::new();
        fs.push(Value::ObjectPtr(self.object));
        fs.push(Value::TypePtr(self.trait_type));
        fs.push(Value::UInt8(self.attr));
        proof {
            lemma_values_view(fs@);
            assert(values_view(fs@) =~= seq![
                ValueV::ObjectPtr(self.object),
                ValueV::TypePtr(self.trait_type),
                ValueV::UInt8(self.attr),
            ]);
        }
        Value::Struct(TypePtr::from_u16_unchecked(REV_PTR_CODE), fs)
    }

    pub fn deserialize(val: Value) -> (r: Option<RevPtr>)
        ensures
            r == revptr_from_value(val@),
    {
        match val {
            Value::Struct(_, fs) => {
                proof {
                    lemma_values_view(fs@);
                }
                if fs.len() != 3 {
                    return None;
                }
                match (&fs[0], &fs[1], &fs[2]) {
                    (Value::ObjectPtr(object), Value::TypePtr(trait_type), Value::UInt8(attr)) => Some(
                        RevPtr { object: *object, trait_type: *trait_type, attr: *attr },
                    ),
                    _ => None,
                }
            },
            _ => None,
        }
    }
}

impl Rev {
    pub fn serialize(self) -> (r: Value)
        ensures
            r@ == rev_value(self@),
    {
        let p = TypePtr::from_u16_unchecked(REV_CODE);
        match self {
            Rev::Const(v) => Value::Enum(p, 0, Box::new(v)),
            Rev::Mut(v) => Value::Enum(p, 1, Box::new(v)),
            Rev::IterListAdd(vs) => {
                let l = Value::List(Type::Unknown, vs);
                assert(l@ == ValueV::List(TypeV::Unknown, values_view(vs@)));
                Value::Enum(p, 2, Box::new(l))
            },
            Rev::IterSetAdd(vs) => {
                let l = Value::List(Type::Unknown, vs);
                assert(l@ == ValueV::List(TypeV::Unknown, values_view(vs@)));
                Value::Enum(p, 3, Box::new(l))
            },
            Rev::IterSetRemove(vs) => {
                let l = Value::List(Type::Unknown, vs);
                assert(l@ == ValueV::List(TypeV::Unknown, values_view(vs@)));
                Value::Enum(p, 4, Box::new(l))
            },
        }
    }

    pub fn deserialize(val: Value) -> (r: Option<Rev>)
        ensures
            match r {
                Some(x) => rev_from_value(val@) == Some(x@),
                None => rev_from_value(val@) is None,
            },
    {
        match val {
            Value::Enum(_, ev, x) => {
                if ev == 0 {
                    Some(Rev::Const(*x))
                } else if ev == 1 {
                    Some(Rev::Mut(*x))
                } else if ev <= 4 {
                    match *x {
                        Value::List(_, vs) => {
                            if ev == 2 {
                                Some(Rev::IterListAdd(vs))
                            } else if ev == 3 {
                                Some(Rev::IterSetAdd(vs))
                            } else {
                                Some(Rev::IterSetRemove(vs))
                            }
                        },
                        _ => None,
                    }
                } else {
                    None
                }
            },
            _ => None,
        }
    }
}

impl Commit {
    pub fn serialize(self) -> (r: Value)
        ensures
            r@ == commit_value(self@),
    {
        let ghost c = self@;
        let Commit { ptr, revs } = self;
        let mut revs = revs;
        let ghost orig = revs@;
        let mut ps: Vec<(Value, Value)> = Vec::new();
        while revs.len() > 0
            invariant
                orig.len() == ps@.len() + revs@.len(),
                revs@ == orig.subrange(ps@.len() as int, orig.len() as int),
                forall|j: int|
                    0 <= j < ps@.len() ==> (#[trigger] ps@[j]).0@ == revptr_value(orig[j].0)
                        && ps@[j].1@ == rev_value(orig[j].1@),
            decreases revs@.len(),
        {
            let (rp, rv) = revs.remove(0);
            let k = rp.serialize();
            let v = rv.serialize();
            ps.push((k, v));
        }
        proof {
            lemma_pairs_view(ps@);
            assert(pairs_view(ps@) =~= Seq::new(
                c.revs.len(),
                |i: int| (revptr_value(c.revs[i].0), rev_value(c.revs[i].1)),
            ));
        }
        let d = Value::Dict(
            Type::Struct(TypePtr::from_u16_unchecked(REV_PTR_CODE)),
            Type::Struct(TypePtr::from_u16_unchecked(REV_CODE)),
            ps,
        );
        let first = ptr.serialize();
        let mut fs: Vec<Value> = Vec::new();
        fs.push(first);
        fs.push(d);
        proof {
            lemma_values_view(fs@);
            assert(values_view(fs@) =~= seq![commitptr_value(ptr), d@]);
        }
        Value::Struct(TypePtr::from_u16_unchecked(COMMIT_CODE), fs)
    }

    pub fn deserialize(val: Value) -> (r: Option<Commit>)
        ensures
            match r {
                Some(c) => commit_from_value(val@) == Some(c@),
                None => commit_from_value(val@) is None,
            },
    {
        let ghost vv = val@;
        match val {
            Value::Struct(_, fs) => {
                let mut fs = fs;
                proof {
                    lemma_values_view(fs@);
                }
                if fs.len() != 2 {
                    return None;
                }
                let ghost f0 = fs@[0]@;
                let ghost f1 = fs@[1]@;
                let b = fs.pop();
                let a = fs.pop();
                let (a, b) = match (a, b) {
                    (Some(a), Some(b)) => (a, b),
                    _ => return None,
                };
                assert(a@ == f0 && b@ == f1);
                assert(vv matches ValueV::Struct(_, vfs) && vfs.len() == 2 && vfs[0] == f0 && vfs[1] == f1);
                let ptr = match CommitPtr::deserialize(a) {
                    Some(p) => p,
                    None => return None,
                };
                match b {
                    Value::Dict(_, _, ps) => {
                        let mut ps = ps;
                        proof {
                            lemma_pairs_view(ps@);
                        }
                        let ghost orig = pairs_view(ps@);
                        let mut revs: Vec<(RevPtr, Rev)> = Vec::new();
                        assert(f1 == ValueV::Dict(f1->Dict_0, f1->Dict_1, orig));
                        #[verifier::loop_isolation(false)]
                        while ps.len() > 0
                            invariant
                                orig.len() == revs@.len() + ps@.len(),
                                forall|j: int|
                                    0 <= j < ps@.len() ==> ((#[trigger] ps@[j]).0@, ps@[j].1@)
                                        == orig[revs@.len() + j],
                                forall|j: int|
                                    0 <= j < revs@.len() ==> revptr_from_value(orig[j].0) == Some(
                                        (#[trigger] revs@[j]).0,
                                    ) && rev_from_value(orig[j].1) == Some(revs@[j].1@),
                            decreases ps@.len(),
                        {
                            let (k, v) = ps.remove(0);
                            let rp = RevPtr::deserialize(k);
                            let rv = Rev::deserialize(v);
                            match (rp, rv) {
                                (Some(rp), Some(rv)) => {
                                    revs.push((rp, rv));
                                },
                                _ => {
                                    proof {
                                        let i = revs@.len() as int;
                                        assert(!(revptr_from_value(orig[i].0) is Some
                                            && rev_from_value(orig[i].1) is Some));
                                        assert(!pairs_are_revs(orig));
                                        assert(f1 == ValueV::Dict(f1->Dict_0, f1->Dict_1, orig));
                                        assert(commit_from_value(vv) is None);
                                    }
                                    return None;
                                },
                            }
                        }
                        let c = Commit { ptr, revs };
                        proof {
                            assert forall|i: int| 0 <= i < orig.len() implies (#[trigger] revptr_from_value(orig[i].0)) is Some
                                && rev_from_value(orig[i].1) is Some by {
                                assert(revptr_from_value(orig[i].0) == Some(revs@[i].0));
                            }
                            assert(pairs_are_revs(orig));
                            assert(f1 == ValueV::Dict(f1->Dict_0, f1->Dict_1, orig));
                            assert(revs_view(c.revs@) =~= Seq::new(
                                orig.len(),
                                |i: int|
                                    (
                                        revptr_from_value(orig[i].0)->Some_0,
                                        rev_from_value(orig[i].1)->Some_0,
                                    ),
                            ));
                        }
                        Some(c)
                    },
                    _ => None,
                }
            },
            _ => None,
        }
    }
}

/// A commit turns into a value and back into itself.
pub proof fn lemma_commit_schema_round_trip(c: CommitV)
    ensures
        commit_from_value(commit_value(c)) == Some(c),
{
    let ps = Seq::new(
        c.revs.len(),
        |i: int| (revptr_value(c.revs[i].0), rev_value(c.revs[i].1)),
    );
    assert forall|i: int| 0 <= i < ps.len() implies (#[trigger] revptr_from_value(ps[i].0)) == Some(
        c.revs[i].0,
    ) && rev_from_value(ps[i].1) == Some(c.revs[i].1) by {
        match c.revs[i].1 {
            RevV::Const(_) => {},
            RevV::Mut(_) => {},
            RevV::IterListAdd(_) => {},
            RevV::IterSetAdd(_) => {},
            RevV::IterSetRemove(_) => {},
        }
    }
    let back = commit_from_value(commit_value(c));
    assert(back->Some_0.revs =~= c.revs);
}

/// How a trait attribute changes from commit to commit.
#[derive(Clone, Copy, Debug, PartialEq, Eq, Structural)]
pub enum CommitAttrType {
    Const,
    Mut,
    IterList,
    IterSet,
    Complex,
}

/// Registered code of `CommitAttrType`.
pub const COMMIT_ATTR_TYPE_CODE: u16 = 3;

impl CommitAttrType {
    pub open spec fn variant(self) -> u64 {
        match self {
            CommitAttrType::Const => 0,
            CommitAttrType::Mut => 1,
            CommitAttrType::IterList => 2,
            CommitAttrType::IterSet => 3,
            CommitAttrType::Complex => 4,
        }
    }

    pub fn serialize(self) -> (r: Value)
        ensures
            r@ == ValueV::CEnum(std_ptr(COMMIT_ATTR_TYPE_CODE), self.variant()),
    {
        let ev: u64 = match self {
            CommitAttrType::Const => 0,
            CommitAttrType::Mut => 1,
            CommitAttrType::IterList => 2,
            CommitAttrType::IterSet => 3,
            CommitAttrType::Complex => 4,
        };
        Value::CEnum(TypePtr::from_u16_unchecked(COMMIT_ATTR_TYPE_CODE), ev)
    }

    pub fn deserialize(val: Value) -> (r: Option<CommitAttrType>)
        ensures
            match r {
                Some(t) => val@ matches ValueV::CEnum(_, ev) && ev == t.variant(),
                None => !(val@ matches ValueV::CEnum(_, ev) && ev <= 4),
            },
    {
        match val {
            Value::CEnum(_, ev) => {
                if ev == 0 {
                    Some(CommitAttrType::Const)
                } else if ev == 1 {
                    Some(CommitAttrType::Mut)
                } else if ev == 2 {
                    Some(CommitAttrType::IterList)
                } else if ev == 3 {
                    Some(CommitAttrType::IterSet)
                } else if ev == 4 {
                    Some(CommitAttrType::Complex)
                } else {
                    None
                }
            },
            _ => None,
        }
    }
}

impl UnixTs {
    pub fn serialize(self) -> (r: Value)
        ensures
            r@ == ValueV::UInt(self.0),
    {
        Value::UInt(self.0)
    }

    pub fn deserialize(val: Value) -> (r: Option<UnixTs>)
        ensures
            r == (match val@ {
                ValueV::UInt(u) => Some(UnixTs(u)),
                _ => None,
            }),
    {
        match val {
            Value::UInt(u) => Some(UnixTs(u)),
            _ => None,
        }
    }
}

impl SimpleName {
    pub fn serialize(self) -> (r: Value)
        ensures
            r@ == ValueV::String(self.0@),
    {
        Value::String(self.0)
    }

    pub fn deserialize(val: Value) -> (r: Option<SimpleName>)
        ensures
            r is Some <==> val@ is String,
            r matches Some(n) ==> val@ == ValueV::String(n.0@),
    {
        match val {
            Value::String(s) => Some(SimpleName(s)),
            _ => None,
        }
    }
}

/// A revision whose values can be encoded.
pub open spec fn rev_wf(rv: RevV) -> bool {
    match rv {
        RevV::Const(v) => value_wf(v),
        RevV::Mut(v) => value_wf(v),
        RevV::IterListAdd(vs) => vs.len() <= u64::MAX && forall|i: int|
            0 <= i < vs.len() ==> value_wf(#[trigger] vs[i]),
        RevV::IterSetAdd(vs) => vs.len() <= u64::MAX && forall|i: int|
            0 <= i < vs.len() ==> value_wf(#[trigger] vs[i]),
        RevV::IterSetRemove(vs) => vs.len() <= u64::MAX && forall|i: int|
            0 <= i < vs.len() ==> value_wf(#[trigger] vs[i]),
    }
}

/// Registered codes below 256 are well formed.
pub proof fn lemma_small_code_ok(n: u16)
    requires
        n < 256,
    ensures
        std_code_ok(n),
{
    assert((n >> 8u16) != 0xffu16) by (bit_vector)
        requires
            n < 256,
    ;
}

pub proof fn lemma_rev_wf(rv: RevV)
    ensures
        value_wf(rev_value(rv)) == rev_wf(rv),
{
    reveal_with_fuel(value_wf, 2);
    lemma_small_code_ok(REV_CODE);
}

pub proof fn lemma_commit_wf(c: CommitV)
    ensures
        value_wf(commit_value(c)) == (c.revs.len() <= u64::MAX && forall|i: int|
            0 <= i < c.revs.len() ==> (#[trigger] c.revs[i]).0.trait_type.wf() && rev_wf(
                c.revs[i].1,
            )),
{
    reveal_with_fuel(value_wf, 3);
    lemma_small_code_ok(REV_CODE);
    lemma_small_code_ok(REV_PTR_CODE);
    lemma_small_code_ok(COMMIT_PTR_CODE);
    lemma_small_code_ok(COMMIT_CODE);
    let ps = Seq::new(
        c.revs.len(),
        |i: int| (revptr_value(c.revs[i].0), rev_value(c.revs[i].1)),
    );
    assert forall|i: int| 0 <= i < c.revs.len() implies (value_wf(revptr_value(c.revs[i].0))
        == c.revs[i].0.trait_type.wf() && value_wf(rev_value(c.revs[i].1)) == rev_wf(
        c.revs[i].1,
    )) by {
        lemma_rev_wf(c.revs[i].1);
        let fs = seq![
            ValueV::ObjectPtr(c.revs[i].0.object),
            ValueV::TypePtr(c.revs[i].0.trait_type),
            ValueV::UInt8(c.revs[i].0.attr),
        ];
        assert(value_wf(revptr_value(c.revs[i].0)) == (forall|j: int| 0 <= j < fs.len() ==> value_wf(fs[j])));
        assert(value_wf(fs[0]) && value_wf(fs[2]));
    }
    let f0 = commitptr_value(c.ptr);
    assert(value_wf(f0)) by {
        let fs = seq![ValueV::Timestamp(c.ptr.ts), ValueV::ObjectPtr(c.ptr.opr), ValueV::UInt16(c.ptr.seq)];
        assert(forall|j: int| 0 <= j < fs.len() ==> value_wf(fs[j]));
    }
    let d = ValueV::Dict(TypeV::Struct(std_ptr(REV_PTR_CODE)), TypeV::Struct(std_ptr(REV_CODE)), ps);
    assert(value_wf(d) == (ps.len() <= u64::MAX && forall|i: int|
        0 <= i < ps.len() ==> value_wf(ps[i].0) && value_wf(ps[i].1)));
    let top = seq![f0, d];
    assert(value_wf(commit_value(c)) == (forall|j: int| 0 <= j < top.len() ==> value_wf(top[j])));
    assert(value_wf(commit_value(c)) == value_wf(d));
    let lhs = forall|i: int| 0 <= i < ps.len() ==> value_wf(ps[i].0) && value_wf(ps[i].1);
    let rhs = forall|i: int|
        0 <= i < c.revs.len() ==> (#[trigger] c.revs[i]).0.trait_type.wf() && rev_wf(c.revs[i].1);
    assert(lhs ==> rhs) by {
        if lhs {
            assert forall|i: int| 0 <= i < c.revs.len() implies (#[trigger] c.revs[i]).0.trait_type.wf()
                && rev_wf(c.revs[i].1) by {
                assert(value_wf(ps[i].0) && value_wf(ps[i].1));
            }
        }
    }
    assert(rhs ==> lhs) by {
        if rhs {
            assert forall|i: int| 0 <= i < ps.len() implies value_wf(ps[i].0) && value_wf(ps[i].1) by {
                assert(c.revs[i].0.trait_type.wf() && rev_wf(c.revs[i].1));
            }
        }
    }
}

impl Rev {
    /// Whether the values of this revision can be encoded.
    pub fn is_wf(&self) -> (r: bool)
        ensures
            r == rev_wf(self@),
    {
        match self {
            Rev::Const(v) => value_is_wf(v),
            Rev::Mut(v) => value_is_wf(v),
            Rev::IterListAdd(vs) => values_is_wf(vs),
            Rev::IterSetAdd(vs) => values_is_wf(vs),
            Rev::IterSetRemove(vs) => values_is_wf(vs),
        }
    }
}

fn values_is_wf(vs: &Vec<Value>) -> (r: bool)
    ensures
        r == (values_view(vs@).len() <= u64::MAX && forall|i: int|
            0 <= i < values_view(vs@).len() ==> value_wf(#[trigger] values_view(vs@)[i])),
{
    proof {
        lemma_values_view(vs@);
    }
    if !len_fits(vs.len()) {
        return false;
    }
    let mut i: usize = 0;
    while i < vs.len()
        invariant
            i <= vs@.len(),
            values_view(vs@).len() == vs@.len(),
            forall|j: int| 0 <= j < vs@.len() ==> #[trigger] values_view(vs@)[j] == value_view(vs@[j]),
            forall|j: int| 0 <= j < i ==> value_wf(#[trigger] values_view(vs@)[j]),
        decreases vs@.len() - i,
    {
        if !value_is_wf(&vs[i]) {
            assert(!value_wf(values_view(vs@)[i as int]));
            return false;
        }
        i = i + 1;
    }
    true
}

impl Commit {
    /// Whether this commit can be encoded: what `write_commit` asks of it.
    pub fn is_wf(&self) -> (r: bool)
        ensures
            r == value_wf(commit_value(self@)),
    {
        proof {
            lemma_commit_wf(self@);
        }
        if !len_fits(self.revs.len()) {
            return false;
        }
        let mut i: usize = 0;
        #[verifier::loop_isolation(false)]
        while i < self.revs.len()
            invariant
                i <= self.revs@.len(),
                forall|j: int|
                    0 <= j < i ==> (#[trigger] self@.revs[j]).0.trait_type.wf() && rev_wf(
                        self@.revs[j].1,
                    ),
            decreases self.revs@.len() - i,
        {
            let (rp, rv) = &self.revs[i];
            if !typeptr_is_wf(&rp.trait_type) || !rv.is_wf() {
                assert(!(self@.revs[i as int].0.trait_type.wf() && rev_wf(self@.revs[i as int].1)));
                return false;
            }
            i = i + 1;
        }
        true
    }
}

} // verus!
