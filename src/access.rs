//! Reading the payload of a value of a known kind, and the tags of values
//! and types.
use crate::encode::type_tag;
use crate::meta::{ObjectPtr, Timestamp, TypePtr};
use crate::encode::{lemma_types_view, lemma_values_view};
use crate::types::{pairs_view, type_view, types_view, value_view, values_view, HTag, Tag, Type, TypeV, Value, ValueV};
use vstd::prelude::*;

verus! {

/// The category of a value: the high nibble of its tag byte.
pub open spec fn value_htag(v: ValueV) -> HTag {
    match v {
        ValueV::Int(_) => HTag::Int,
        ValueV::UInt(_) => HTag::UInt,
        ValueV::Float(_) => HTag::Float,
        ValueV::String(_) => HTag::String,
        ValueV::Bytes(_) => HTag::Bytes,
        ValueV::List(_, _) => HTag::List,
        ValueV::Dict(_, _, _) => HTag::Dict,
        ValueV::Tuple(_) => HTag::Tuple,
        ValueV::CEnum(_, _) => HTag::CEnum,
        ValueV::Enum(_, _, _) => HTag::Enum,
        ValueV::Struct(_, _) => HTag::Struct,
        _ => HTag::L4,
    }
}

/// The tag of the type a value belongs to.
pub open spec fn value_tag(v: ValueV) -> Tag {
    match v {
        ValueV::Unit => Tag::Unit,
        ValueV::Bool(_) => Tag::Bool,
        ValueV::Int(_) => Tag::Int,
        ValueV::UInt(_) => Tag::UInt,
        ValueV::Float(_) => Tag::Float,
        ValueV::String(_) => Tag::String,
        ValueV::Bytes(_) => Tag::Bytes,
        ValueV::Option(_, _) => Tag::Option,
        ValueV::List(_, _) => Tag::List,
        ValueV::Dict(_, _, _) => Tag::Dict,
        ValueV::Tuple(_) => Tag::Tuple,
        ValueV::Alias(_, _) => Tag::Alias,
        ValueV::CEnum(_, _) => Tag::CEnum,
        ValueV::Enum(_, _, _) => Tag::Enum,
        ValueV::Struct(_, _) => Tag::Struct,
        ValueV::Type(_) => Tag::Type,
        ValueV::TypePtr(_) => Tag::TypePtr,
        ValueV::ObjectPtr(_) => Tag::ObjectPtr,
        ValueV::Timestamp(_) => Tag::Timestamp,
        ValueV::UInt8(_) => Tag::UInt8,
        ValueV::UInt16(_) => Tag::UInt16,
        ValueV::UInt32(_) => Tag::UInt32,
    }
}

impl Type {
    pub fn as_tag(&self) -> (r: Tag)
        ensures
            r == type_tag(self@),
    {
        match self {
            Type::Unknown => Tag::Unknown,
            Type::Unit => Tag::Unit,
            Type::Bool => Tag::Bool,
            Type::Int => Tag::Int,
            Type::UInt => Tag::UInt,
            Type::Float => Tag::Float,
            Type::String => Tag::String,
            Type::Bytes => Tag::Bytes,
            Type::Option(_) => Tag::Option,
            Type::List(_) => Tag::List,
            Type::Dict(_, _) => Tag::Dict,
            Type::Tuple(_) => Tag::Tuple,
            Type::Alias(_) => Tag::Alias,
            Type::CEnum(_) => Tag::CEnum,
            Type::Enum(_) => Tag::Enum,
            Type::Struct(_) => Tag::Struct,
            Type::Type => Tag::Type,
            Type::TypePtr => Tag::TypePtr,
            Type::ObjectPtr => Tag::ObjectPtr,
            Type::Timestamp => Tag::Timestamp,
            Type::UInt8 => Tag::UInt8,
            Type::UInt16 => Tag::UInt16,
            Type::UInt32 => Tag::UInt32,
        }
    }
}

impl Value {
    pub fn as_tag(&self) -> (r: Tag)
        ensures
            r == value_tag(self@),
    {
        match self {
            Value::Unit => Tag::Unit,
            Value::Bool(_) => Tag::Bool,
            Value::Int(_) => Tag::Int,
            Value::UInt(_) => Tag::UInt,
            Value::Float(_) => Tag::Float,
            Value::String(_) => Tag::String,
            Value::Bytes(_) => Tag::Bytes,
            Value::Option(_, _) => Tag::Option,
            Value::List(_, _) => Tag::List,
            Value::Dict(_, _, _) => Tag::Dict,
            Value::Tuple(_) => Tag::Tuple,
            Value::Alias(_, _) => Tag::Alias,
            Value::CEnum(_, _) => Tag::CEnum,
            Value::Enum(_, _, _) => Tag::Enum,
            Value::Struct(_, _) => Tag::Struct,
            Value::Type(_) => Tag::Type,
            Value::TypePtr(_) => Tag::TypePtr,
            Value::ObjectPtr(_) => Tag::ObjectPtr,
            Value::Timestamp(_) => Tag::Timestamp,
            Value::UInt8(_) => Tag::UInt8,
            Value::UInt16(_) => Tag::UInt16,
            Value::UInt32(_) => Tag::UInt32,
        }
    }

    pub fn as_htag(&self) -> (r: HTag)
        ensures
            r == value_htag(self@),
    {
        match self {
            Value::Int(_) => HTag::Int,
            Value::UInt(_) => HTag::UInt,
            Value::Float(_) => HTag::Float,
            Value::String(_) => HTag::String,
            Value::Bytes(_) => HTag::Bytes,
            Value::List(_, _) => HTag::List,
            Value::Dict(_, _, _) => HTag::Dict,
            Value::Tuple(_) => HTag::Tuple,
            Value::CEnum(_, _) => HTag::CEnum,
            Value::Enum(_, _, _) => HTag::Enum,
            Value::Struct(_, _) => HTag::Struct,
            _ => HTag::L4,
        }
    }

    /// Whether this is the unit value.
    pub fn into_unit(self) -> (r: Option<()>)
        ensures
            r is Some <==> self@ is Unit,
    {
        match self {
            Value::Unit => Some(()),
            _ => None,
        }
    }

    pub fn into_bool(self) -> (r: Option<bool>)
        ensures
            r == (match self@ {
                ValueV::Bool(b) => Some(b),
                _ => None,
            }),
    {
        match self {
            Value::Bool(b) => Some(b),
            _ => None,
        }
    }

    pub fn into_int(self) -> (r: Option<i64>)
        ensures
            r == (match self@ {
                ValueV::Int(i) => Some(i),
                _ => None,
            }),
    {
        match self {
            Value::Int(i) => Some(i),
            _ => None,
        }
    }

    pub fn into_uint(self) -> (r: Option<u64>)
        ensures
            r == (match self@ {
                ValueV::UInt(u) => Some(u),
                _ => None,
            }),
    {
        match self {
            Value::UInt(u) => Some(u),
            _ => None,
        }
    }

    /// The bit pattern of a float value.
    pub fn into_float_bits(self) -> (r: Option<u64>)
        ensures
            r == (match self@ {
                ValueV::Float(f) => Some(f),
                _ => None,
            }),
    {
        match self {
            Value::Float(f) => Some(f),
            _ => None,
        }
    }

    pub fn into_string(self) -> (r: Option<String>)
        ensures
            r is Some <==> self@ is String,
            r matches Some(s) ==> self@ == ValueV::String(s@),
    {
        match self {
            Value::String(s) => Some(s),
            _ => None,
        }
    }

    pub fn into_bytes(self) -> (r: Option<Vec<u8>>)
        ensures
            r is Some <==> self@ is Bytes,
            r matches Some(b) ==> self@ == ValueV::Bytes(b@),
    {
        match self {
            Value::Bytes(b) => Some(b),
            _ => None,
        }
    }

    pub fn into_list(self) -> (r: Option<Vec<Value>>)
        ensures
            r is Some <==> self@ is List,
            r matches Some(s) ==> self@->List_1 == values_view(s@),
    {
        match self {
            Value::List(_, s) => Some(s),
            _ => None,
        }
    }

    pub fn into_map(self) -> (r: Option<Vec<(Value, Value)>>)
        ensures
            r is Some <==> self@ is Dict,
            r matches Some(s) ==> self@->Dict_2 == pairs_view(s@),
    {
        match self {
            Value::Dict(_, _, s) => Some(s),
            _ => None,
        }
    }

    pub fn into_tuple(self) -> (r: Option<Vec<Value>>)
        ensures
            r is Some <==> self@ is Tuple,
            r matches Some(s) ==> self@->Tuple_0 == values_view(s@),
    {
        match self {
            Value::Tuple(s) => Some(s),
            _ => None,
        }
    }

    pub fn into_c_enum(self) -> (r: Option<u64>)
        ensures
            r == (match self@ {
                ValueV::CEnum(_, e) => Some(e),
                _ => None,
            }),
    {
        match self {
            Value::CEnum(_, e) => Some(e),
            _ => None,
        }
    }

    pub fn into_struct(self) -> (r: Option<Vec<Value>>)
        ensures
            r is Some <==> self@ is Struct,
            r matches Some(s) ==> self@->Struct_1 == values_view(s@),
    {
        match self {
            Value::Struct(_, s) => Some(s),
            _ => None,
        }
    }

    pub fn into_type_ptr(self) -> (r: Option<TypePtr>)
        ensures
            r == (match self@ {
                ValueV::TypePtr(p) => Some(p),
                _ => None,
            }),
    {
        match self {
            Value::TypePtr(p) => Some(p),
            _ => None,
        }
    }

    pub fn into_object_ptr(self) -> (r: Option<ObjectPtr>)
        ensures
            r == (match self@ {
                ValueV::ObjectPtr(o) => Some(o),
                _ => None,
            }),
    {
        match self {
            Value::ObjectPtr(o) => Some(o),
            _ => None,
        }
    }

    pub fn into_timestamp(self) -> (r: Option<Timestamp>)
        ensures
            r == (match self@ {
                ValueV::Timestamp(t) => Some(t),
                _ => None,
            }),
    {
        match self {
            Value::Timestamp(t) => Some(t),
            _ => None,
        }
    }

    pub fn into_uint8(self) -> (r: Option<u8>)
        ensures
            r == (match self@ {
                ValueV::UInt8(u) => Some(u),
                _ => None,
            }),
    {
        match self {
            Value::UInt8(u) => Some(u),
            _ => None,
        }
    }

    pub fn into_uint16(self) -> (r: Option<u16>)
        ensures
            r == (match self@ {
                ValueV::UInt16(u) => Some(u),
                _ => None,
            }),
    {
        match self {
            Value::UInt16(u) => Some(u),
            _ => None,
        }
    }

    pub fn into_uint32(self) -> (r: Option<u32>)
        ensures
            r == (match self@ {
                ValueV::UInt32(u) => Some(u),
                _ => None,
            }),
    {
        match self {
            Value::UInt32(u) => Some(u),
            _ => None,
        }
    }
}

/// A copy of a type descriptor.
pub fn clone_type(t: &Type) -> (r: Type)
    ensures
        r@ == t@,
    decreases t,
{
    match t {
        Type::Unknown => Type::Unknown,
        Type::Unit => Type::Unit,
        Type::Bool => Type::Bool,
        Type::Int => Type::Int,
        Type::UInt => Type::UInt,
        Type::Float => Type::Float,
        Type::String => Type::String,
        Type::Bytes => Type::Bytes,
        Type::Option(x) => Type::Option(Box::new(clone_type(x))),
        Type::List(x) => Type::List(Box::new(clone_type(x))),
        Type::Dict(k, v) => Type::Dict(Box::new(clone_type(k)), Box::new(clone_type(v))),
        Type::Tuple(s) => {
            proof {
                lemma_types_view(s@);
            }
            let mut out: Vec<Type> = Vec::new();
            let mut i: usize = 0;
            while i < s.len()
                invariant
                    *t == Type::Tuple(*s),
                    i <= s@.len(),
                    out@.len() == i,
                    types_view(s@).len() == s@.len(),
                    forall|j: int| 0 <= j < s@.len() ==> #[trigger] types_view(s@)[j] == type_view(s@[j]),
                    types_view(out@) == types_view(s@).subrange(0, i as int),
                decreases s@.len() - i,
            {
                proof {
                    assert(decreases_to!(*s => s[i as int]));
                    assert(decreases_to!(Type::Tuple(*s) => Type::Tuple(*s)->Tuple_0));
                }
                let c = clone_type(&s[i]);
                proof {
                    assert(out@.push(c).subrange(0, i as int) =~= out@);
                    assert(types_view(s@).subrange(0, i + 1) =~= types_view(s@).subrange(0, i as int).push(c@));
                }
                out.push(c);
                i = i + 1;
            }
            assert(types_view(s@).subrange(0, s@.len() as int) =~= types_view(s@));
            Type::Tuple(out)
        },
        Type::Alias(p) => Type::Alias(*p),
        Type::CEnum(p) => Type::CEnum(*p),
        Type::Enum(p) => Type::Enum(*p),
        Type::Struct(p) => Type::Struct(*p),
        Type::Type => Type::Type,
        Type::TypePtr => Type::TypePtr,
        Type::ObjectPtr => Type::ObjectPtr,
        Type::Timestamp => Type::Timestamp,
        Type::UInt8 => Type::UInt8,
        Type::UInt16 => Type::UInt16,
        Type::UInt32 => Type::UInt32,
    }
}

/// The type a value belongs to.
pub open spec fn value_type(v: ValueV) -> TypeV
    decreases v,
{
    match v {
        ValueV::Unit => TypeV::Unit,
        ValueV::Bool(_) => TypeV::Bool,
        ValueV::Int(_) => TypeV::Int,
        ValueV::UInt(_) => TypeV::UInt,
        ValueV::Float(_) => TypeV::Float,
        ValueV::String(_) => TypeV::String,
        ValueV::Bytes(_) => TypeV::Bytes,
        ValueV::Option(t, _) => TypeV::Option(Box::new(t)),
        ValueV::List(t, _) => TypeV::List(Box::new(t)),
        ValueV::Dict(tk, tv, _) => TypeV::Dict(Box::new(tk), Box::new(tv)),
        ValueV::Tuple(s) => TypeV::Tuple(
            Seq::new(s.len(), |i: int| if 0 <= i < s.len() { value_type(s[i]) } else { TypeV::Unit }),
        ),
        ValueV::Alias(p, _) => TypeV::Alias(p),
        ValueV::CEnum(p, _) => TypeV::CEnum(p),
        ValueV::Enum(p, _, _) => TypeV::Enum(p),
        ValueV::Struct(p, _) => TypeV::Struct(p),
        ValueV::Type(_) => TypeV::Type,
        ValueV::TypePtr(_) => TypeV::TypePtr,
        ValueV::ObjectPtr(_) => TypeV::ObjectPtr,
        ValueV::Timestamp(_) => TypeV::Timestamp,
        ValueV::UInt8(_) => TypeV::UInt8,
        ValueV::UInt16(_) => TypeV::UInt16,
        ValueV::UInt32(_) => TypeV::UInt32,
    }
}

impl Value {
    /// The type this value belongs to.
    pub fn as_type(&self) -> (r: Type)
        ensures
            r@ == value_type(self@),
        decreases self,
    {
        match self {
            Value::Unit => Type::Unit,
            Value::Bool(_) => Type::Bool,
            Value::Int(_) => Type::Int,
            Value::UInt(_) => Type::UInt,
            Value::Float(_) => Type::Float,
            Value::String(_) => Type::String,
            Value::Bytes(_) => Type::Bytes,
            Value::Option(t, _) => {
                let c = clone_type(t);
                assert(self@ matches ValueV::Option(tt, _) && tt == t@);
                Type::Option(Box::new(c))
            },
            Value::List(t, _) => {
                let c = clone_type(t);
                assert(self@ matches ValueV::List(tt, _) && tt == t@);
                Type::List(Box::new(c))
            },
            Value::Dict(tk, tv, _) => {
                let ck = clone_type(tk);
                let cv = clone_type(tv);
                assert(self@ matches ValueV::Dict(a, b, _) && a == tk@ && b == tv@);
                Type::Dict(Box::new(ck), Box::new(cv))
            },
            Value::Tuple(s) => {
                proof {
                    lemma_values_view(s@);
                }
                let mut out: Vec<Type> = Vec::new();
                let mut i: usize = 0;
                while i < s.len()
                    invariant
                        *self == Value::Tuple(*s),
                        i <= s@.len(),
                        out@.len() == i,
                        values_view(s@).len() == s@.len(),
                        forall|j: int| 0 <= j < s@.len() ==> #[trigger] values_view(s@)[j] == value_view(s@[j]),
                        forall|j: int| 0 <= j < i ==> #[trigger] types_view(out@)[j] == value_type(values_view(s@)[j]),
                        types_view(out@).len() == i,
                    decreases s@.len() - i,
                {
                    proof {
                        assert(decreases_to!(*s => s[i as int]));
                        assert(decreases_to!(Value::Tuple(*s) => Value::Tuple(*s)->Tuple_0));
                        lemma_types_view(out@);
                    }
                    let c = s[i].as_type();
                    proof {
                        assert(out@.push(c).subrange(0, i as int) =~= out@);
                        lemma_types_view(out@.push(c));
                    }
                    out.push(c);
                    i = i + 1;
                }
                let r = Type::Tuple(out);
                proof {
                    let vs = values_view(s@);
                    assert(types_view(out@) =~= Seq::new(
                        vs.len(),
                        |j: int| if 0 <= j < vs.len() { value_type(vs[j]) } else { TypeV::Unit },
                    ));
                    assert(self@ == ValueV::Tuple(vs));
                    assert(r@ == TypeV::Tuple(types_view(out@)));
                    let vt = value_type(ValueV::Tuple(vs));
                    assert(vt is Tuple);
                    assert(vt->Tuple_0.len() == vs.len());
                    assert forall|j: int| 0 <= j < vs.len() implies vt->Tuple_0[j] == value_type(vs[j]) by {}
                    assert(types_view(out@) =~= vt->Tuple_0);
                }
                r
            },
            Value::Alias(p, _) => Type::Alias(*p),
            Value::CEnum(p, _) => Type::CEnum(*p),
            Value::Enum(p, _, _) => Type::Enum(*p),
            Value::Struct(p, _) => Type::Struct(*p),
            Value::Type(_) => Type::Type,
            Value::TypePtr(_) => Type::TypePtr,
            Value::ObjectPtr(_) => Type::ObjectPtr,
            Value::Timestamp(_) => Type::Timestamp,
            Value::UInt8(_) => Type::UInt8,
            Value::UInt16(_) => Type::UInt16,
            Value::UInt32(_) => Type::UInt32,
        }
    }
}

} // verus!
