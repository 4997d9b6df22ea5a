//! The dynamic type system: type descriptors, values, their tags and their
//! mathematical views.
use crate::meta::{ObjectPtr, Timestamp, TypePtr};
use vstd::prelude::*;

verus! {

/// The tag byte of each kind of type descriptor, in wire order from 0x00.
#[derive(Clone, Copy, Debug, PartialEq, Eq, Structural)]
pub enum Tag {
    Unknown,
    Unit,
    Bool,
    Int,
    UInt,
    Float,
    String,
    Bytes,
    Option,
    List,
    Dict,
    Tuple,
    Alias,
    CEnum,
    Enum,
    Struct,
    Type,
    TypePtr,
    ObjectPtr,
    Timestamp,
    UInt8,
    UInt16,
    UInt32,
}

/// The high nibble of a value's tag byte: its broad category, from 0x0.
#[derive(Clone, Copy, Debug, PartialEq, Eq, Structural)]
pub enum HTag {
    L4,
    Int,
    UInt,
    Float,
    String,
    Bytes,
    List,
    Dict,
    Tuple,
    CEnum,
    Enum,
    Struct,
}

/// The low nibble of a value in the inline category: which kind, from 0x0.
#[derive(Clone, Copy, Debug, PartialEq, Eq, Structural)]
pub enum LTag {
    Unit,
    False,
    True,
    OptNone,
    OptSome,
    Alias,
    Type,
    TypePtr,
    ObjectPtr,
    Timestamp,
    UInt8,
    UInt16,
    UInt32,
}

impl Tag {
    pub open spec fn code(self) -> u8 {
        match self {
            Tag::Unknown => 0x00,
            Tag::Unit => 0x01,
            Tag::Bool => 0x02,
            Tag::Int => 0x03,
            Tag::UInt => 0x04,
            Tag::Float => 0x05,
            Tag::String => 0x06,
            Tag::Bytes => 0x07,
            Tag::Option => 0x08,
            Tag::List => 0x09,
            Tag::Dict => 0x0a,
            Tag::Tuple => 0x0b,
            Tag::Alias => 0x0c,
            Tag::CEnum => 0x0d,
            Tag::Enum => 0x0e,
            Tag::Struct => 0x0f,
            Tag::Type => 0x10,
            Tag::TypePtr => 0x11,
            Tag::ObjectPtr => 0x12,
            Tag::Timestamp => 0x13,
            Tag::UInt8 => 0x14,
            Tag::UInt16 => 0x15,
            Tag::UInt32 => 0x16,
        }
    }

    /// The tag whose code is `b`, if any.
    pub open spec fn of_code(b: u8) -> Option<Tag> {
        if b == 0x00 {
            Some(Tag::Unknown)
        } else if b == 0x01 {
            Some(Tag::Unit)
        } else if b == 0x02 {
            Some(Tag::Bool)
        } else if b == 0x03 {
            Some(Tag::Int)
        } else if b == 0x04 {
            Some(Tag::UInt)
        } else if b == 0x05 {
            Some(Tag::Float)
        } else if b == 0x06 {
            Some(Tag::String)
        } else if b == 0x07 {
            Some(Tag::Bytes)
        } else if b == 0x08 {
            Some(Tag::Option)
        } else if b == 0x09 {
            Some(Tag::List)
        } else if b == 0x0a {
            Some(Tag::Dict)
        } else if b == 0x0b {
            Some(Tag::Tuple)
        } else if b == 0x0c {
            Some(Tag::Alias)
        } else if b == 0x0d {
            Some(Tag::CEnum)
        } else if b == 0x0e {
            Some(Tag::Enum)
        } else if b == 0x0f {
            Some(Tag::Struct)
        } else if b == 0x10 {
            Some(Tag::Type)
        } else if b == 0x11 {
            Some(Tag::TypePtr)
        } else if b == 0x12 {
            Some(Tag::ObjectPtr)
        } else if b == 0x13 {
            Some(Tag::Timestamp)
        } else if b == 0x14 {
            Some(Tag::UInt8)
        } else if b == 0x15 {
            Some(Tag::UInt16)
        } else if b == 0x16 {
            Some(Tag::UInt32)
        } else {
            None
        }
    }

    pub fn to_u8(self) -> (r: u8)
        ensures
            r == self.code(),
    {
        match self {
            Tag::Unknown => 0x00,
            Tag::Unit => 0x01,
            Tag::Bool => 0x02,
            Tag::Int => 0x03,
            Tag::UInt => 0x04,
            Tag::Float => 0x05,
            Tag::String => 0x06,
            Tag::Bytes => 0x07,
            Tag::Option => 0x08,
            Tag::List => 0x09,
            Tag::Dict => 0x0a,
            Tag::Tuple => 0x0b,
            Tag::Alias => 0x0c,
            Tag::CEnum => 0x0d,
            Tag::Enum => 0x0e,
            Tag::Struct => 0x0f,
            Tag::Type => 0x10,
            Tag::TypePtr => 0x11,
            Tag::ObjectPtr => 0x12,
            Tag::Timestamp => 0x13,
            Tag::UInt8 => 0x14,
            Tag::UInt16 => 0x15,
            Tag::UInt32 => 0x16,
        }
    }

    /// The tag whose code is `b`; `None` for a byte that names no type.
    pub fn from_u8(b: u8) -> (r: Option<Tag>)
        ensures
            r == Tag::of_code(b),
    {
        if b == 0x00 {
            Some(Tag::Unknown)
        } else if b == 0x01 {
            Some(Tag::Unit)
        } else if b == 0x02 {
            Some(Tag::Bool)
        } else if b == 0x03 {
            Some(Tag::Int)
        } else if b == 0x04 {
            Some(Tag::UInt)
        } else if b == 0x05 {
            Some(Tag::Float)
        } else if b == 0x06 {
            Some(Tag::String)
        } else if b == 0x07 {
            Some(Tag::Bytes)
        } else if b == 0x08 {
            Some(Tag::Option)
        } else if b == 0x09 {
            Some(Tag::List)
        } else if b == 0x0a {
            Some(Tag::Dict)
        } else if b == 0x0b {
            Some(Tag::Tuple)
        } else if b == 0x0c {
            Some(Tag::Alias)
        } else if b == 0x0d {
            Some(Tag::CEnum)
        } else if b == 0x0e {
            Some(Tag::Enum)
        } else if b == 0x0f {
            Some(Tag::Struct)
        } else if b == 0x10 {
            Some(Tag::Type)
        } else if b == 0x11 {
            Some(Tag::TypePtr)
        } else if b == 0x12 {
            Some(Tag::ObjectPtr)
        } else if b == 0x13 {
            Some(Tag::Timestamp)
        } else if b == 0x14 {
            Some(Tag::UInt8)
        } else if b == 0x15 {
            Some(Tag::UInt16)
        } else if b == 0x16 {
            Some(Tag::UInt32)
        } else {
            None
        }
    }
}

impl HTag {
    pub open spec fn code(self) -> u8 {
        match self {
            HTag::L4 => 0x0,
            HTag::Int => 0x1,
            HTag::UInt => 0x2,
            HTag::Float => 0x3,
            HTag::String => 0x4,
            HTag::Bytes => 0x5,
            HTag::List => 0x6,
            HTag::Dict => 0x7,
            HTag::Tuple => 0x8,
            HTag::CEnum => 0x9,
            HTag::Enum => 0xa,
            HTag::Struct => 0xb,
        }
    }

    pub open spec fn of_code(b: u8) -> Option<HTag> {
        if b == 0x0 {
            Some(HTag::L4)
        } else if b == 0x1 {
            Some(HTag::Int)
        } else if b == 0x2 {
            Some(HTag::UInt)
        } else if b == 0x3 {
            Some(HTag::Float)
        } else if b == 0x4 {
            Some(HTag::String)
        } else if b == 0x5 {
            Some(HTag::Bytes)
        } else if b == 0x6 {
            Some(HTag::List)
        } else if b == 0x7 {
            Some(HTag::Dict)
        } else if b == 0x8 {
            Some(HTag::Tuple)
        } else if b == 0x9 {
            Some(HTag::CEnum)
        } else if b == 0xa {
            Some(HTag::Enum)
        } else if b == 0xb {
            Some(HTag::Struct)
        } else {
            None
        }
    }

    pub fn to_u8(self) -> (r: u8)
        ensures
            r == self.code(),
            r < 16,
    {
        match self {
            HTag::L4 => 0x0,
            HTag::Int => 0x1,
            HTag::UInt => 0x2,
            HTag::Float => 0x3,
            HTag::String => 0x4,
            HTag::Bytes => 0x5,
            HTag::List => 0x6,
            HTag::Dict => 0x7,
            HTag::Tuple => 0x8,
            HTag::CEnum => 0x9,
            HTag::Enum => 0xa,
            HTag::Struct => 0xb,
        }
    }

    pub fn from_u8(b: u8) -> (r: Option<HTag>)
        ensures
            r == HTag::of_code(b),
    {
        if b == 0x0 {
            Some(HTag::L4)
        } else if b == 0x1 {
            Some(HTag::Int)
        } else if b == 0x2 {
            Some(HTag::UInt)
        } else if b == 0x3 {
            Some(HTag::Float)
        } else if b == 0x4 {
            Some(HTag::String)
        } else if b == 0x5 {
            Some(HTag::Bytes)
        } else if b == 0x6 {
            Some(HTag::List)
        } else if b == 0x7 {
            Some(HTag::Dict)
        } else if b == 0x8 {
            Some(HTag::Tuple)
        } else if b == 0x9 {
            Some(HTag::CEnum)
        } else if b == 0xa {
            Some(HTag::Enum)
        } else if b == 0xb {
            Some(HTag::Struct)
        } else {
            None
        }
    }
}

impl LTag {
    pub open spec fn code(self) -> u8 {
        match self {
            LTag::Unit => 0x0,
            LTag::False => 0x1,
            LTag::True => 0x2,
            LTag::OptNone => 0x3,
            LTag::OptSome => 0x4,
            LTag::Alias => 0x5,
            LTag::Type => 0x6,
            LTag::TypePtr => 0x7,
            LTag::ObjectPtr => 0x8,
            LTag::Timestamp => 0x9,
            LTag::UInt8 => 0xa,
            LTag::UInt16 => 0xb,
            LTag::UInt32 => 0xc,
        }
    }

    pub open spec fn of_code(b: u8) -> Option<LTag> {
        if b == 0x0 {
            Some(LTag::Unit)
        } else if b == 0x1 {
            Some(LTag::False)
        } else if b == 0x2 {
            Some(LTag::True)
        } else if b == 0x3 {
            Some(LTag::OptNone)
        } else if b == 0x4 {
            Some(LTag::OptSome)
        } else if b == 0x5 {
            Some(LTag::Alias)
        } else if b == 0x6 {
            Some(LTag::Type)
        } else if b == 0x7 {
            Some(LTag::TypePtr)
        } else if b == 0x8 {
            Some(LTag::ObjectPtr)
        } else if b == 0x9 {
            Some(LTag::Timestamp)
        } else if b == 0xa {
            Some(LTag::UInt8)
        } else if b == 0xb {
            Some(LTag::UInt16)
        } else if b == 0xc {
            Some(LTag::UInt32)
        } else {
            None
        }
    }

    pub fn to_u8(self) -> (r: u8)
        ensures
            r == self.code(),
            r < 16,
    {
        match self {
            LTag::Unit => 0x0,
            LTag::False => 0x1,
            LTag::True => 0x2,
            LTag::OptNone => 0x3,
            LTag::OptSome => 0x4,
            LTag::Alias => 0x5,
            LTag::Type => 0x6,
            LTag::TypePtr => 0x7,
            LTag::ObjectPtr => 0x8,
            LTag::Timestamp => 0x9,
            LTag::UInt8 => 0xa,
            LTag::UInt16 => 0xb,
            LTag::UInt32 => 0xc,
        }
    }

    pub fn from_u8(b: u8) -> (r: Option<LTag>)
        ensures
            r == LTag::of_code(b),
    {
        if b == 0x0 {
            Some(LTag::Unit)
        } else if b == 0x1 {
            Some(LTag::False)
        } else if b == 0x2 {
            Some(LTag::True)
        } else if b == 0x3 {
            Some(LTag::OptNone)
        } else if b == 0x4 {
            Some(LTag::OptSome)
        } else if b == 0x5 {
            Some(LTag::Alias)
        } else if b == 0x6 {
            Some(LTag::Type)
        } else if b == 0x7 {
            Some(LTag::TypePtr)
        } else if b == 0x8 {
            Some(LTag::ObjectPtr)
        } else if b == 0x9 {
            Some(LTag::Timestamp)
        } else if b == 0xa {
            Some(LTag::UInt8)
        } else if b == 0xb {
            Some(LTag::UInt16)
        } else if b == 0xc {
            Some(LTag::UInt32)
        } else {
            None
        }
    }
}

/// The structural shape of a value.
#[derive(Debug, PartialEq, Eq)]
pub enum Type {
    Unknown,
    Unit,
    Bool,
    Int,
    UInt,
    Float,
    String,
    Bytes,
    Option(Box<Type>),
    List(Box<Type>),
    Dict(Box<Type>, Box<Type>),
    Tuple(Vec<Type>),
    Alias(TypePtr),
    CEnum(TypePtr),
    Enum(TypePtr),
    Struct(TypePtr),
    Type,
    TypePtr,
    ObjectPtr,
    Timestamp,
    UInt8,
    UInt16,
    UInt32,
}

/// A data point of the dynamic type system. Options, lists and maps carry
/// their element types, so that every value decodes on its own.
#[derive(Debug, PartialEq, Eq)]
pub enum Value {
    Unit,
    Bool(bool),
    Int(i64),
    UInt(u64),
    /// The bit pattern of a 64-bit float.
    Float(u64),
    String(String),
    Bytes(Vec<u8>),
    Option(Type, Box<Option<Value>>),
    List(Type, Vec<Value>),
    Dict(Type, Type, Vec<(Value, Value)>),
    Tuple(Vec<Value>),
    Alias(TypePtr, Box<Value>),
    CEnum(TypePtr, u64),
    Enum(TypePtr, u64, Box<Value>),
    /// A record: its field values in declared order, without names.
    Struct(TypePtr, Vec<Value>),
    Type(Type),
    TypePtr(TypePtr),
    ObjectPtr(ObjectPtr),
    Timestamp(Timestamp),
    UInt8(u8),
    UInt16(u16),
    UInt32(u32),
}

/// The mathematical model of a `Type`.
pub enum TypeV {
    Unknown,
    Unit,
    Bool,
    Int,
    UInt,
    Float,
    String,
    Bytes,
    Option(Box<TypeV>),
    List(Box<TypeV>),
    Dict(Box<TypeV>, Box<TypeV>),
    Tuple(Seq<TypeV>),
    Alias(TypePtr),
    CEnum(TypePtr),
    Enum(TypePtr),
    Struct(TypePtr),
    Type,
    TypePtr,
    ObjectPtr,
    Timestamp,
    UInt8,
    UInt16,
    UInt32,
}

/// The mathematical model of a `Value`: strings as characters, vectors as
/// sequences.
pub enum ValueV {
    Unit,
    Bool(bool),
    Int(i64),
    UInt(u64),
    Float(u64),
    String(Seq<char>),
    Bytes(Seq<u8>),
    Option(TypeV, Option<Box<ValueV>>),
    List(TypeV, Seq<ValueV>),
    Dict(TypeV, TypeV, Seq<(ValueV, ValueV)>),
    Tuple(Seq<ValueV>),
    Alias(TypePtr, Box<ValueV>),
    CEnum(TypePtr, u64),
    Enum(TypePtr, u64, Box<ValueV>),
    Struct(TypePtr, Seq<ValueV>),
    Type(TypeV),
    TypePtr(TypePtr),
    ObjectPtr(ObjectPtr),
    Timestamp(Timestamp),
    UInt8(u8),
    UInt16(u16),
    UInt32(u32),
}

pub open spec fn type_view(t: Type) -> TypeV
    decreases t,
{
    match t {
        Type::Unknown => TypeV::Unknown,
        Type::Unit => TypeV::Unit,
        Type::Bool => TypeV::Bool,
        Type::Int => TypeV::Int,
        Type::UInt => TypeV::UInt,
        Type::Float => TypeV::Float,
        Type::String => TypeV::String,
        Type::Bytes => TypeV::Bytes,
        Type::Option(x) => TypeV::Option(Box::new(type_view(*x))),
        Type::List(x) => TypeV::List(Box::new(type_view(*x))),
        Type::Dict(k, v) => TypeV::Dict(Box::new(type_view(*k)), Box::new(type_view(*v))),
        Type::Tuple(s) => TypeV::Tuple(types_view(s@)),
        Type::Alias(p) => TypeV::Alias(p),
        Type::CEnum(p) => TypeV::CEnum(p),
        Type::Enum(p) => TypeV::Enum(p),
        Type::Struct(p) => TypeV::Struct(p),
        Type::Type => TypeV::Type,
        Type::TypePtr => TypeV::TypePtr,
        Type::ObjectPtr => TypeV::ObjectPtr,
        Type::Timestamp => TypeV::Timestamp,
        Type::UInt8 => TypeV::UInt8,
        Type::UInt16 => TypeV::UInt16,
        Type::UInt32 => TypeV::UInt32,
    }
}

pub open spec fn types_view(s: Seq<Type>) -> Seq<TypeV>
    decreases s,
{
    if s.len() == 0 {
        seq![]
    } else {
        types_view(s.subrange(0, s.len() - 1)).push(type_view(s[s.len() - 1]))
    }
}

pub open spec fn value_view(v: Value) -> ValueV
    decreases v,
{
    match v {
        Value::Unit => ValueV::Unit,
        Value::Bool(b) => ValueV::Bool(b),
        Value::Int(i) => ValueV::Int(i),
        Value::UInt(u) => ValueV::UInt(u),
        Value::Float(f) => ValueV::Float(f),
        Value::String(s) => ValueV::String(s@),
        Value::Bytes(b) => ValueV::Bytes(b@),
        Value::Option(t, o) => ValueV::Option(
            type_view(t),
            match *o {
                Some(x) => Some(Box::new(value_view(x))),
                None => None,
            },
        ),
        Value::List(t, s) => ValueV::List(type_view(t), values_view(s@)),
        Value::Dict(tk, tv, s) => ValueV::Dict(type_view(tk), type_view(tv), pairs_view(s@)),
        Value::Tuple(s) => ValueV::Tuple(values_view(s@)),
        Value::Alias(p, x) => ValueV::Alias(p, Box::new(value_view(*x))),
        Value::CEnum(p, e) => ValueV::CEnum(p, e),
        Value::Enum(p, e, x) => ValueV::Enum(p, e, Box::new(value_view(*x))),
        Value::Struct(p, s) => ValueV::Struct(p, values_view(s@)),
        Value::Type(t) => ValueV::Type(type_view(t)),
        Value::TypePtr(p) => ValueV::TypePtr(p),
        Value::ObjectPtr(o) => ValueV::ObjectPtr(o),
        Value::Timestamp(t) => ValueV::Timestamp(t),
        Value::UInt8(u) => ValueV::UInt8(u),
        Value::UInt16(u) => ValueV::UInt16(u),
        Value::UInt32(u) => ValueV::UInt32(u),
    }
}

pub open spec fn values_view(s: Seq<Value>) -> Seq<ValueV>
    decreases s,
{
    if s.len() == 0 {
        seq![]
    } else {
        values_view(s.subrange(0, s.len() - 1)).push(value_view(s[s.len() - 1]))
    }
}

pub open spec fn pairs_view(s: Seq<(Value, Value)>) -> Seq<(ValueV, ValueV)>
    decreases s,
{
    if s.len() == 0 {
        seq![]
    } else {
        pairs_view(s.subrange(0, s.len() - 1)).push(
            (value_view(s[s.len() - 1].0), value_view(s[s.len() - 1].1)),
        )
    }
}

impl View for Type {
    type V = TypeV;

    open spec fn view(&self) -> TypeV {
        type_view(*self)
    }
}

impl View for Value {
    type V = ValueV;

    open spec fn view(&self) -> ValueV {
        value_view(*self)
    }
}

} // verus!
