//! The wire form of types and values, and the encoder that writes it.
use crate::meta::{check_stdptr, TypePtr, enc_objectptr, enc_timestamp, enc_typeptr, push_objectptr, push_timestamp, push_typeptr};
use crate::types::{
    pairs_view, type_view, types_view, value_view, values_view, HTag, LTag, Tag, Type, TypeV, Value,
    ValueV,
};
use crate::wire::{
    be16, be32, enc_head, float_bytes, make_tag, push_float, push_head, push_u16, push_u32,
    push_bytes, tag_byte, zigzag, zigzag_encode,
};
use vstd::prelude::*;
use vstd::utf8::encode_utf8;

verus! {

/// Every type pointer is well formed and every tuple has at most 255
/// elements, so that its count fits its byte.
pub open spec fn type_wf(t: TypeV) -> bool
    decreases t,
{
    match t {
        TypeV::Option(x) => type_wf(*x),
        TypeV::List(x) => type_wf(*x),
        TypeV::Dict(k, v) => type_wf(*k) && type_wf(*v),
        TypeV::Tuple(s) => s.len() <= 255 && forall|i: int| 0 <= i < s.len() ==> type_wf(s[i]),
        TypeV::Alias(p) => p.wf(),
        TypeV::CEnum(p) => p.wf(),
        TypeV::Enum(p) => p.wf(),
        TypeV::Struct(p) => p.wf(),
        _ => true,
    }
}

/// Every type inside is well formed and every length fits in 64 bits.
pub open spec fn value_wf(v: ValueV) -> bool
    decreases v,
{
    match v {
        ValueV::String(c) => encode_utf8(c).len() <= u64::MAX,
        ValueV::Bytes(b) => b.len() <= u64::MAX,
        ValueV::Option(t, o) => type_wf(t) && match o {
            Some(x) => value_wf(*x),
            None => true,
        },
        ValueV::List(t, s) => type_wf(t) && s.len() <= u64::MAX && forall|i: int|
            0 <= i < s.len() ==> value_wf(s[i]),
        ValueV::Dict(tk, tv, s) => type_wf(tk) && type_wf(tv) && s.len() <= u64::MAX && forall|
            i: int,
        |
            0 <= i < s.len() ==> value_wf(s[i].0) && value_wf(s[i].1),
        ValueV::Tuple(s) => s.len() <= u64::MAX && forall|i: int|
            0 <= i < s.len() ==> value_wf(s[i]),
        ValueV::Alias(p, x) => p.wf() && value_wf(*x),
        ValueV::CEnum(p, _) => p.wf(),
        ValueV::Enum(p, _, x) => p.wf() && value_wf(*x),
        ValueV::Struct(p, s) => p.wf() && s.len() <= u64::MAX && forall|i: int|
            0 <= i < s.len() ==> value_wf(s[i]),
        ValueV::Type(t) => type_wf(t),
        ValueV::TypePtr(p) => p.wf(),
        _ => true,
    }
}

/// The tag of a type descriptor.
pub open spec fn type_tag(t: TypeV) -> Tag {
    match t {
        TypeV::Unknown => Tag::Unknown,
        TypeV::Unit => Tag::Unit,
        TypeV::Bool => Tag::Bool,
        TypeV::Int => Tag::Int,
        TypeV::UInt => Tag::UInt,
        TypeV::Float => Tag::Float,
        TypeV::String => Tag::String,
        TypeV::Bytes => Tag::Bytes,
        TypeV::Option(_) => Tag::Option,
        TypeV::List(_) => Tag::List,
        TypeV::Dict(_, _) => Tag::Dict,
        TypeV::Tuple(_) => Tag::Tuple,
        TypeV::Alias(_) => Tag::Alias,
        TypeV::CEnum(_) => Tag::CEnum,
        TypeV::Enum(_) => Tag::Enum,
        TypeV::Struct(_) => Tag::Struct,
        TypeV::Type => Tag::Type,
        TypeV::TypePtr => Tag::TypePtr,
        TypeV::ObjectPtr => Tag::ObjectPtr,
        TypeV::Timestamp => Tag::Timestamp,
        TypeV::UInt8 => Tag::UInt8,
        TypeV::UInt16 => Tag::UInt16,
        TypeV::UInt32 => Tag::UInt32,
    }
}

/// The wire form of a type: its tag byte, then nested types, a tuple's count
/// byte and elements, or a type pointer.
pub open spec fn enc_type(t: TypeV) -> Seq<u8>
    decreases t,
{
    seq![type_tag(t).code()] + match t {
        TypeV::Option(x) => enc_type(*x),
        TypeV::List(x) => enc_type(*x),
        TypeV::Dict(k, v) => enc_type(*k) + enc_type(*v),
        TypeV::Tuple(s) => seq![s.len() as u8] + enc_types(s),
        TypeV::Alias(p) => enc_typeptr(p),
        TypeV::CEnum(p) => enc_typeptr(p),
        TypeV::Enum(p) => enc_typeptr(p),
        TypeV::Struct(p) => enc_typeptr(p),
        _ => Seq::<u8>::empty(),
    }
}

/// The wire forms of types, one after the other.
pub open spec fn enc_types(s: Seq<TypeV>) -> Seq<u8>
    decreases s,
{
    if s.len() == 0 {
        seq![]
    } else {
        enc_types(s.subrange(0, s.len() - 1)) + enc_type(s[s.len() - 1])
    }
}

/// The tag byte of an inline value kind.
pub open spec fn l4(l: LTag) -> u8 {
    tag_byte(HTag::L4.code(), l.code())
}

/// The wire form of a value.
pub open spec fn enc_value(v: ValueV) -> Seq<u8>
    decreases v,
{
    match v {
        ValueV::Unit => seq![l4(LTag::Unit)],
        ValueV::Bool(b) => seq![
            if b {
                l4(LTag::True)
            } else {
                l4(LTag::False)
            },
        ],
        ValueV::Int(i) => enc_head(HTag::Int.code(), zigzag(i)),
        ValueV::UInt(u) => enc_head(HTag::UInt.code(), u),
        ValueV::Float(f) => seq![tag_byte(HTag::Float.code(), float_bytes(f).len() as u8)]
            + float_bytes(f),
        ValueV::String(c) => enc_head(HTag::String.code(), encode_utf8(c).len() as u64)
            + encode_utf8(c),
        ValueV::Bytes(b) => enc_head(HTag::Bytes.code(), b.len() as u64) + b,
        ValueV::Option(t, o) => match o {
            Some(x) => seq![l4(LTag::OptSome)] + enc_type(t) + enc_value(*x),
            None => seq![l4(LTag::OptNone)] + enc_type(t),
        },
        ValueV::List(t, s) => enc_head(HTag::List.code(), s.len() as u64) + enc_type(t)
            + enc_values(s),
        ValueV::Dict(tk, tv, s) => enc_head(HTag::Dict.code(), s.len() as u64) + enc_type(tk)
            + enc_type(tv) + enc_pairs(s),
        ValueV::Tuple(s) => enc_head(HTag::Tuple.code(), s.len() as u64) + enc_values(s),
        ValueV::Alias(p, x) => seq![l4(LTag::Alias)] + enc_typeptr(p) + enc_value(*x),
        ValueV::CEnum(p, e) => enc_head(HTag::CEnum.code(), e) + enc_typeptr(p),
        ValueV::Enum(p, e, x) => enc_head(HTag::Enum.code(), e) + enc_typeptr(p) + enc_value(*x),
        ValueV::Struct(p, s) => enc_head(HTag::Struct.code(), s.len() as u64) + enc_typeptr(p)
            + enc_values(s),
        ValueV::Type(t) => seq![l4(LTag::Type)] + enc_type(t),
        ValueV::TypePtr(p) => seq![l4(LTag::TypePtr)] + enc_typeptr(p),
        ValueV::ObjectPtr(o) => seq![l4(LTag::ObjectPtr)] + enc_objectptr(o),
        ValueV::Timestamp(t) => seq![l4(LTag::Timestamp)] + enc_timestamp(t),
        ValueV::UInt8(u) => seq![l4(LTag::UInt8), u],
        ValueV::UInt16(u) => seq![l4(LTag::UInt16)] + be16(u),
        ValueV::UInt32(u) => seq![l4(LTag::UInt32)] + be32(u),
    }
}

/// The wire forms of values, one after the other.
pub open spec fn enc_values(s: Seq<ValueV>) -> Seq<u8>
    decreases s,
{
    if s.len() == 0 {
        seq![]
    } else {
        enc_values(s.subrange(0, s.len() - 1)) + enc_value(s[s.len() - 1])
    }
}

/// The wire forms of key-value pairs: each key, then its value.
pub open spec fn enc_pairs(s: Seq<(ValueV, ValueV)>) -> Seq<u8>
    decreases s,
{
    if s.len() == 0 {
        seq![]
    } else {
        enc_pairs(s.subrange(0, s.len() - 1)) + enc_value(s[s.len() - 1].0) + enc_value(
            s[s.len() - 1].1,
        )
    }
}

pub proof fn lemma_types_view(s: Seq<Type>)
    ensures
        types_view(s).len() == s.len(),
        forall|i: int| 0 <= i < s.len() ==> #[trigger] types_view(s)[i] == type_view(s[i]),
    decreases s.len(),
{
    if s.len() > 0 {
        lemma_types_view(s.subrange(0, s.len() - 1));
    }
}

pub proof fn lemma_values_view(s: Seq<Value>)
    ensures
        values_view(s).len() == s.len(),
        forall|i: int| 0 <= i < s.len() ==> #[trigger] values_view(s)[i] == value_view(s[i]),
    decreases s.len(),
{
    if s.len() > 0 {
        lemma_values_view(s.subrange(0, s.len() - 1));
    }
}

pub proof fn lemma_pairs_view(s: Seq<(Value, Value)>)
    ensures
        pairs_view(s).len() == s.len(),
        forall|i: int|
            0 <= i < s.len() ==> #[trigger] pairs_view(s)[i] == (
            value_view(s[i].0),
            value_view(s[i].1),
            ),
    decreases s.len(),
{
    if s.len() > 0 {
        lemma_pairs_view(s.subrange(0, s.len() - 1));
    }
}

/// Appends the wire form of a type.
pub fn push_type(out: &mut Vec<u8>, t: &Type)
    requires
        type_wf(t@),
    ensures
        final(out)@ == old(out)@ + enc_type(t@),
    decreases t,
{
    let tag = match t {
        Type::Unknown => Tag::Unknown,
        Type::Unit => Tag::Unit,
        Type::Bool => Tag::Bool,
        Type::Int => Tag::Int,
        Type::UInt => Tag::UInt,
        Type::Float => Tag::Float,
        Type::String => Tag::String,
        Type::Bytes => Tag::Bytes,
        Type::Option(_) => Tag::Option,
        Type::List(_) => Tag::List,
        Type::Dict(_, _) => Tag::Dict,
        Type::Tuple(_) => Tag::Tuple,
        Type::Alias(_) => Tag::Alias,
        Type::CEnum(_) => Tag::CEnum,
        Type::Enum(_) => Tag::Enum,
        Type::Struct(_) => Tag::Struct,
        Type::Type => Tag::Type,
        Type::TypePtr => Tag::TypePtr,
        Type::ObjectPtr => Tag::ObjectPtr,
        Type::Timestamp => Tag::Timestamp,
        Type::UInt8 => Tag::UInt8,
        Type::UInt16 => Tag::UInt16,
        Type::UInt32 => Tag::UInt32,
    };
    out.push(tag.to_u8());
    let ghost start = out@;
    match t {
        Type::Option(x) => {
            push_type(out, x);
        },
        Type::List(x) => {
            push_type(out, x);
        },
        Type::Dict(k, v) => {
            push_type(out, k);
            push_type(out, v);
        },
        Type::Tuple(s) => {
            proof {
                lemma_types_view(s@);
            }
            out.push(s.len() as u8);
            let ghost mid = out@;
            let mut i: usize = 0;
            while i < s.len()
                invariant
                    *t == Type::Tuple(*s),
                    i <= s@.len(),
                    s@.len() <= 255,
                    forall|j: int| 0 <= j < s@.len() ==> type_wf(#[trigger] types_view(s@)[j]),
                    types_view(s@).len() == s@.len(),
                    forall|j: int| 0 <= j < s@.len() ==> #[trigger] types_view(s@)[j] == type_view(s@[j]),
                    out@ == mid + enc_types(types_view(s@).subrange(0, i as int)),
                decreases s@.len() - i,
            {
                assert(type_wf(types_view(s@)[i as int]));
                proof {
                    assert(decreases_to!(*s => s[i as int]));
                    assert(decreases_to!(Type::Tuple(*s) => Type::Tuple(*s)->Tuple_0));
                    assert(decreases_to!(*t => s[i as int]));
                }
                push_type(out, &s[i]);
                proof {
                    let vs = types_view(s@);
                    assert(vs.subrange(0, i + 1).subrange(0, i as int) =~= vs.subrange(0, i as int));
                }
                i = i + 1;
                assert(out@ =~= mid + enc_types(types_view(s@).subrange(0, i as int)));
            }
            assert(types_view(s@).subrange(0, s@.len() as int) =~= types_view(s@));
        },
        Type::Alias(p) => {
            push_typeptr(out, p);
        },
        Type::CEnum(p) => {
            push_typeptr(out, p);
        },
        Type::Enum(p) => {
            push_typeptr(out, p);
        },
        Type::Struct(p) => {
            push_typeptr(out, p);
        },
        _ => {},
    }
    assert(out@ =~= old(out)@ + enc_type(t@));
}


/// Appends the tag byte of an inline value kind.
fn push_l4(out: &mut Vec<u8>, l: LTag)
    ensures
        final(out)@ == old(out)@.push(l4(l)),
{
    let t = make_tag(HTag::L4.to_u8(), l.to_u8());
    out.push(t);
}

/// Appends the wire form of a value.
pub fn push_value(out: &mut Vec<u8>, v: &Value)
    requires
        value_wf(v@),
    ensures
        final(out)@ == old(out)@ + enc_value(v@),
    decreases v,
{
    match v {
        Value::Unit => {
            push_l4(out, LTag::Unit);
        },
        Value::Bool(b) => {
            if *b {
                push_l4(out, LTag::True);
            } else {
                push_l4(out, LTag::False);
            }
        },
        Value::Int(i) => {
            push_head(out, HTag::Int.to_u8(), zigzag_encode(*i));
        },
        Value::UInt(u) => {
            push_head(out, HTag::UInt.to_u8(), *u);
        },
        Value::Float(f) => {
            push_float(out, HTag::Float.to_u8(), *f);
        },
        Value::String(s) => {
            let b = s.as_str().as_bytes();
            push_head(out, HTag::String.to_u8(), b.len() as u64);
            push_bytes(out, b);
        },
        Value::Bytes(b) => {
            push_head(out, HTag::Bytes.to_u8(), b.len() as u64);
            push_bytes(out, b.as_slice());
        },
        Value::Option(t, o) => {
            match &**o {
                Some(x) => {
                    push_l4(out, LTag::OptSome);
                    push_type(out, t);
                    proof {
                        assert(decreases_to!(*v => (*v)->Option_1));
                    }
                    push_value(out, x);
                },
                None => {
                    push_l4(out, LTag::OptNone);
                    push_type(out, t);
                },
            }
        },
        Value::List(t, s) => {
            proof {
                lemma_values_view(s@);
            }
            push_head(out, HTag::List.to_u8(), s.len() as u64);
            push_type(out, t);
            push_values(out, v, s);
        },
        Value::Dict(tk, tv, s) => {
            proof {
                lemma_pairs_view(s@);
            }
            push_head(out, HTag::Dict.to_u8(), s.len() as u64);
            push_type(out, tk);
            push_type(out, tv);
            push_pairs(out, v, s);
        },
        Value::Tuple(s) => {
            proof {
                lemma_values_view(s@);
            }
            push_head(out, HTag::Tuple.to_u8(), s.len() as u64);
            push_values(out, v, s);
        },
        Value::Alias(p, x) => {
            push_l4(out, LTag::Alias);
            push_typeptr(out, p);
            push_value(out, x);
        },
        Value::CEnum(p, e) => {
            push_head(out, HTag::CEnum.to_u8(), *e);
            push_typeptr(out, p);
        },
        Value::Enum(p, e, x) => {
            push_head(out, HTag::Enum.to_u8(), *e);
            push_typeptr(out, p);
            push_value(out, x);
        },
        Value::Struct(p, s) => {
            proof {
                lemma_values_view(s@);
            }
            push_head(out, HTag::Struct.to_u8(), s.len() as u64);
            push_typeptr(out, p);
            push_values(out, v, s);
        },
        Value::Type(t) => {
            push_l4(out, LTag::Type);
            push_type(out, t);
        },
        Value::TypePtr(p) => {
            push_l4(out, LTag::TypePtr);
            push_typeptr(out, p);
        },
        Value::ObjectPtr(o) => {
            push_l4(out, LTag::ObjectPtr);
            push_objectptr(out, o);
        },
        Value::Timestamp(t) => {
            push_l4(out, LTag::Timestamp);
            push_timestamp(out, t);
        },
        Value::UInt8(u) => {
            push_l4(out, LTag::UInt8);
            out.push(*u);
        },
        Value::UInt16(u) => {
            push_l4(out, LTag::UInt16);
            push_u16(out, *u);
        },
        Value::UInt32(u) => {
            push_l4(out, LTag::UInt32);
            push_u32(out, *u);
        },
    }
    assert(out@ =~= old(out)@ + enc_value(v@));
}

/// Appends the wire forms of the values `s` that `parent` holds.
fn push_values(out: &mut Vec<u8>, parent: &Value, s: &Vec<Value>)
    requires
        decreases_to!(*parent => *s),
        forall|i: int| 0 <= i < s@.len() ==> value_wf(#[trigger] values_view(s@)[i]),
    ensures
        final(out)@ == old(out)@ + enc_values(values_view(s@)),
    decreases parent, 0nat,
{
    proof {
        lemma_values_view(s@);
    }
    let mut i: usize = 0;
    while i < s.len()
        invariant
            decreases_to!(*parent => *s),
            i <= s@.len(),
            forall|j: int| 0 <= j < s@.len() ==> value_wf(#[trigger] values_view(s@)[j]),
            values_view(s@).len() == s@.len(),
            forall|j: int| 0 <= j < s@.len() ==> #[trigger] values_view(s@)[j] == value_view(s@[j]),
            out@ == old(out)@ + enc_values(values_view(s@).subrange(0, i as int)),
        decreases s@.len() - i,
    {
        assert(value_wf(values_view(s@)[i as int]));
        proof {
            assert(decreases_to!(*s => s[i as int]));
        }
        push_value(out, &s[i]);
        proof {
            let vs = values_view(s@);
            assert(vs.subrange(0, i + 1).subrange(0, i as int) =~= vs.subrange(0, i as int));
        }
        i = i + 1;
        assert(out@ =~= old(out)@ + enc_values(values_view(s@).subrange(0, i as int)));
    }
    assert(values_view(s@).subrange(0, s@.len() as int) =~= values_view(s@));
}

/// Appends the wire forms of the pairs `s` that `parent` holds.
fn push_pairs(out: &mut Vec<u8>, parent: &Value, s: &Vec<(Value, Value)>)
    requires
        decreases_to!(*parent => *s),
        forall|i: int|
            0 <= i < s@.len() ==> value_wf((#[trigger] pairs_view(s@)[i]).0) && value_wf(
                pairs_view(s@)[i].1,
            ),
    ensures
        final(out)@ == old(out)@ + enc_pairs(pairs_view(s@)),
    decreases parent, 0nat,
{
    proof {
        lemma_pairs_view(s@);
    }
    let mut i: usize = 0;
    while i < s.len()
        invariant
            decreases_to!(*parent => *s),
            i <= s@.len(),
            forall|j: int|
                0 <= j < s@.len() ==> value_wf((#[trigger] pairs_view(s@)[j]).0) && value_wf(
                    pairs_view(s@)[j].1,
                ),
            pairs_view(s@).len() == s@.len(),
            forall|j: int|
                0 <= j < s@.len() ==> #[trigger] pairs_view(s@)[j] == (
                value_view(s@[j].0),
                value_view(s@[j].1),
                ),
            out@ == old(out)@ + enc_pairs(pairs_view(s@).subrange(0, i as int)),
        decreases s@.len() - i,
    {
        assert(value_wf(pairs_view(s@)[i as int].0));
        proof {
            assert(decreases_to!(*s => s[i as int]));
            assert(decreases_to!(s[i as int] => s[i as int].0));
            assert(decreases_to!(s[i as int] => s[i as int].1));
        }
        let (k, x) = &s[i];
        push_value(out, k);
        push_value(out, x);
        proof {
            let vs = pairs_view(s@);
            assert(vs.subrange(0, i + 1).subrange(0, i as int) =~= vs.subrange(0, i as int));
        }
        i = i + 1;
        assert(out@ =~= old(out)@ + enc_pairs(pairs_view(s@).subrange(0, i as int)));
    }
    assert(pairs_view(s@).subrange(0, s@.len() as int) =~= pairs_view(s@));
}

impl Value {
    /// The wire form of this value.
    pub fn encode(&self) -> (r: Vec<u8>)
        requires
            value_wf(self@),
        ensures
            r@ == enc_value(self@),
    {
        let mut out: Vec<u8> = Vec::new();
        push_value(&mut out, self);
        assert(out@ =~= enc_value(self@));
        out
    }
}

/// Whether a type pointer is well formed.
pub fn typeptr_is_wf(p: &TypePtr) -> (r: bool)
    ensures
        r == p.wf(),
{
    match p {
        TypePtr::Std(sp) => check_stdptr(sp.0),
        TypePtr::Hash(_) => true,
    }
}

/// Whether a type descriptor can be encoded.
pub fn type_is_wf(t: &Type) -> (r: bool)
    ensures
        r == type_wf(t@),
    decreases t,
{
    match t {
        Type::Option(x) => type_is_wf(x),
        Type::List(x) => type_is_wf(x),
        Type::Dict(k, v) => type_is_wf(k) && type_is_wf(v),
        Type::Tuple(s) => {
            proof {
                lemma_types_view(s@);
            }
            if s.len() > 255 {
                return false;
            }
            let mut i: usize = 0;
            while i < s.len()
                invariant
                    *t == Type::Tuple(*s),
                    i <= s@.len(),
                    types_view(s@).len() == s@.len(),
                    forall|j: int| 0 <= j < s@.len() ==> #[trigger] types_view(s@)[j] == type_view(s@[j]),
                    forall|j: int| 0 <= j < i ==> type_wf(#[trigger] types_view(s@)[j]),
                decreases s@.len() - i,
            {
                proof {
                    assert(decreases_to!(*s => s[i as int]));
                    assert(decreases_to!(Type::Tuple(*s) => Type::Tuple(*s)->Tuple_0));
                }
                if !type_is_wf(&s[i]) {
                    assert(!type_wf(types_view(s@)[i as int]));
                    return false;
                }
                i = i + 1;
            }
            true
        },
        Type::Alias(p) => typeptr_is_wf(p),
        Type::CEnum(p) => typeptr_is_wf(p),
        Type::Enum(p) => typeptr_is_wf(p),
        Type::Struct(p) => typeptr_is_wf(p),
        _ => true,
    }
}

/// Whether a length fits in 64 bits.
pub(crate) fn len_fits(n: usize) -> (r: bool)
    ensures
        r == (n <= u64::MAX),
{
    (n as u128) <= (u64::MAX as u128)
}

/// Whether a value can be encoded.
pub fn value_is_wf(v: &Value) -> (r: bool)
    ensures
        r == value_wf(v@),
    decreases v,
{
    match v {
        Value::String(s) => len_fits(s.as_str().as_bytes().len()),
        Value::Bytes(b) => len_fits(b.len()),
        Value::Option(t, o) => {
            if !type_is_wf(t) {
                return false;
            }
            match &**o {
                Some(x) => {
                    proof {
                        assert(decreases_to!(*v => (*v)->Option_1));
                    }
                    value_is_wf(x)
                },
                None => true,
            }
        },
        Value::List(t, s) => {
            proof {
                lemma_values_view(s@);
            }
            type_is_wf(t) && len_fits(s.len()) && values_are_wf(v, s)
        },
        Value::Dict(tk, tv, s) => {
            proof {
                lemma_pairs_view(s@);
            }
            type_is_wf(tk) && type_is_wf(tv) && len_fits(s.len()) && pairs_are_wf(v, s)
        },
        Value::Tuple(s) => {
            proof {
                lemma_values_view(s@);
            }
            len_fits(s.len()) && values_are_wf(v, s)
        },
        Value::Alias(p, x) => typeptr_is_wf(p) && value_is_wf(x),
        Value::CEnum(p, _) => typeptr_is_wf(p),
        Value::Enum(p, _, x) => typeptr_is_wf(p) && value_is_wf(x),
        Value::Struct(p, s) => {
            proof {
                lemma_values_view(s@);
            }
            typeptr_is_wf(p) && len_fits(s.len()) && values_are_wf(v, s)
        },
        Value::Type(t) => type_is_wf(t),
        Value::TypePtr(p) => typeptr_is_wf(p),
        _ => true,
    }
}

/// Whether every value of `s`, which `parent` holds, can be encoded.
fn values_are_wf(parent: &Value, s: &Vec<Value>) -> (r: bool)
    requires
        decreases_to!(*parent => *s),
    ensures
        r == forall|i: int| 0 <= i < s@.len() ==> value_wf(#[trigger] values_view(s@)[i]),
    decreases parent, 0nat,
{
    proof {
        lemma_values_view(s@);
    }
    let mut i: usize = 0;
    while i < s.len()
        invariant
            decreases_to!(*parent => *s),
            i <= s@.len(),
            values_view(s@).len() == s@.len(),
            forall|j: int| 0 <= j < s@.len() ==> #[trigger] values_view(s@)[j] == value_view(s@[j]),
            forall|j: int| 0 <= j < i ==> value_wf(#[trigger] values_view(s@)[j]),
        decreases s@.len() - i,
    {
        proof {
            assert(decreases_to!(*s => s[i as int]));
        }
        if !value_is_wf(&s[i]) {
            assert(!value_wf(values_view(s@)[i as int]));
            return false;
        }
        i = i + 1;
    }
    true
}

/// Whether every pair of `s`, which `parent` holds, can be encoded.
fn pairs_are_wf(parent: &Value, s: &Vec<(Value, Value)>) -> (r: bool)
    requires
        decreases_to!(*parent => *s),
    ensures
        r == forall|i: int|
            0 <= i < s@.len() ==> value_wf((#[trigger] pairs_view(s@)[i]).0) && value_wf(
                pairs_view(s@)[i].1,
            ),
    decreases parent, 0nat,
{
    proof {
        lemma_pairs_view(s@);
    }
    let mut i: usize = 0;
    while i < s.len()
        invariant
            decreases_to!(*parent => *s),
            i <= s@.len(),
            pairs_view(s@).len() == s@.len(),
            forall|j: int|
                0 <= j < s@.len() ==> #[trigger] pairs_view(s@)[j] == (
                value_view(s@[j].0),
                value_view(s@[j].1),
                ),
            forall|j: int|
                0 <= j < i ==> value_wf((#[trigger] pairs_view(s@)[j]).0) && value_wf(
                    pairs_view(s@)[j].1,
                ),
        decreases s@.len() - i,
    {
        proof {
            assert(decreases_to!(*s => s[i as int]));
            assert(decreases_to!(s[i as int] => s[i as int].0));
            assert(decreases_to!(s[i as int] => s[i as int].1));
        }
        let (k, x) = &s[i];
        if !value_is_wf(k) || !value_is_wf(x) {
            assert(!(value_wf(pairs_view(s@)[i as int].0) && value_wf(pairs_view(s@)[i as int].1)));
            return false;
        }
        i = i + 1;
    }
    true
}

} // verus!
