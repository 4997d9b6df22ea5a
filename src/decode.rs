//! Reading the wire form back: a parser over byte sequences that says what
//! every input decodes to, and the decoder that follows it.
use crate::meta::{
    objectptr_of, parse_typeptr, read_objectptr, read_timestamp, read_typeptr, timestamp_of,
};
use crate::encode::lemma_pairs_view;
use crate::types::{pairs_view, type_view, types_view, value_view, values_view, HTag, LTag, Tag, Type, TypeV, Value, ValueV};
use crate::wire::{
    from_be16, from_be32, parse_float, parse_uvar, read_float, read_u16, read_u32, read_uvar,
    lemma_rest_rest, rest, push_bytes, unzigzag, zigzag_decode, DecodeError,
};
use vstd::prelude::*;
use vstd::utf8::{decode_utf8, encode_utf8, valid_utf8};

verus! {

/// Reads a type descriptor: the type and how many bytes it took.
#[verifier::opaque]
pub open spec fn parse_type(s: Seq<u8>) -> Result<(TypeV, nat), DecodeError>
    decreases s.len(), 0nat, 0nat,
{
    if s.len() == 0 {
        Err(DecodeError::TooShort)
    } else {
        let r = rest(s, 1);
        match Tag::of_code(s[0]) {
            None => Err(DecodeError::Tag(s[0])),
            Some(tag) => match tag {
                Tag::Option => match parse_type(r) {
                    Ok((x, n)) => Ok((TypeV::Option(Box::new(x)), 1 + n)),
                    Err(e) => Err(e),
                },
                Tag::List => match parse_type(r) {
                    Ok((x, n)) => Ok((TypeV::List(Box::new(x)), 1 + n)),
                    Err(e) => Err(e),
                },
                Tag::Dict => match parse_type(r) {
                    Ok((k, n)) => if n > r.len() {
                        Err(DecodeError::TooShort)
                    } else {
                        match parse_type(rest(r, n as int)) {
                            Ok((v, m)) => Ok((TypeV::Dict(Box::new(k), Box::new(v)), 1 + n + m)),
                            Err(e) => Err(e),
                        }
                    },
                    Err(e) => Err(e),
                },
                Tag::Tuple => if r.len() < 1 {
                    Err(DecodeError::TooShort)
                } else {
                    match parse_types(rest(r, 1), r[0] as nat) {
                        Ok((ts, n)) => Ok((TypeV::Tuple(ts), 2 + n)),
                        Err(e) => Err(e),
                    }
                },
                Tag::Alias => match parse_typeptr(r) {
                    Ok((p, n)) => Ok((TypeV::Alias(p), 1 + n)),
                    Err(e) => Err(e),
                },
                Tag::CEnum => match parse_typeptr(r) {
                    Ok((p, n)) => Ok((TypeV::CEnum(p), 1 + n)),
                    Err(e) => Err(e),
                },
                Tag::Enum => match parse_typeptr(r) {
                    Ok((p, n)) => Ok((TypeV::Enum(p), 1 + n)),
                    Err(e) => Err(e),
                },
                Tag::Struct => match parse_typeptr(r) {
                    Ok((p, n)) => Ok((TypeV::Struct(p), 1 + n)),
                    Err(e) => Err(e),
                },
                Tag::Unknown => Ok((TypeV::Unknown, 1)),
                Tag::Unit => Ok((TypeV::Unit, 1)),
                Tag::Bool => Ok((TypeV::Bool, 1)),
                Tag::Int => Ok((TypeV::Int, 1)),
                Tag::UInt => Ok((TypeV::UInt, 1)),
                Tag::Float => Ok((TypeV::Float, 1)),
                Tag::String => Ok((TypeV::String, 1)),
                Tag::Bytes => Ok((TypeV::Bytes, 1)),
                Tag::Type => Ok((TypeV::Type, 1)),
                Tag::TypePtr => Ok((TypeV::TypePtr, 1)),
                Tag::ObjectPtr => Ok((TypeV::ObjectPtr, 1)),
                Tag::Timestamp => Ok((TypeV::Timestamp, 1)),
                Tag::UInt8 => Ok((TypeV::UInt8, 1)),
                Tag::UInt16 => Ok((TypeV::UInt16, 1)),
                Tag::UInt32 => Ok((TypeV::UInt32, 1)),
            },
        }
    }
}

/// Reads `count` type descriptors one after the other.
#[verifier::opaque]
pub open spec fn parse_types(s: Seq<u8>, count: nat) -> Result<(Seq<TypeV>, nat), DecodeError>
    decreases s.len(), 1nat, count,
{
    if count == 0 {
        Ok((seq![], 0))
    } else {
        match parse_types(s, (count - 1) as nat) {
            Ok((ts, n)) => if n > s.len() {
                Err(DecodeError::TooShort)
            } else {
                match parse_type(rest(s, n as int)) {
                    Ok((t, m)) => Ok((ts.push(t), n + m)),
                    Err(e) => Err(e),
                }
            },
            Err(e) => Err(e),
        }
    }
}

/// Reads a value: the value and how many bytes it took.
#[verifier::opaque]
pub open spec fn parse_value(s: Seq<u8>) -> Result<(ValueV, nat), DecodeError>
    decreases s.len(), 0nat, 3nat,
{
    if s.len() == 0 {
        Err(DecodeError::TooShort)
    } else {
        parse_tagged(s[0] / 16, s[0] % 16, rest(s, 1))
    }
}

/// Reads a value whose tag byte has nibbles `h` and `l` from the bytes `r`
/// after it; the count includes the tag byte.
#[verifier::opaque]
pub open spec fn parse_tagged(h: u8, l: u8, r: Seq<u8>) -> Result<(ValueV, nat), DecodeError>
    decreases r.len() + 1, 0nat, 2nat,
{
    match HTag::of_code(h) {
        None => Err(DecodeError::HTag(h)),
        Some(HTag::L4) => parse_inline(l, r),
        Some(HTag::Int) => parse_number(HTag::Int, l, r),
        Some(HTag::UInt) => parse_number(HTag::UInt, l, r),
        Some(HTag::Float) => parse_number(HTag::Float, l, r),
        Some(HTag::String) => parse_blob(HTag::String, l, r),
        Some(HTag::Bytes) => parse_blob(HTag::Bytes, l, r),
        Some(HTag::List) => parse_seq(HTag::List, l, r),
        Some(HTag::Dict) => parse_seq(HTag::Dict, l, r),
        Some(HTag::Tuple) => parse_seq(HTag::Tuple, l, r),
        Some(HTag::Struct) => parse_seq(HTag::Struct, l, r),
        Some(HTag::CEnum) => parse_variant(HTag::CEnum, l, r),
        Some(HTag::Enum) => parse_variant(HTag::Enum, l, r),
    }
}

/// Reads what follows the tag byte of an inline kind with low nibble `l`;
/// the count includes the tag byte.
#[verifier::opaque]
pub open spec fn parse_inline(l: u8, r: Seq<u8>) -> Result<(ValueV, nat), DecodeError>
    decreases r.len() + 1, 0nat, 1nat,
{
    match LTag::of_code(l) {
        None => Err(DecodeError::LTag(l)),
        Some(LTag::Unit) => Ok((ValueV::Unit, 1)),
        Some(LTag::False) => Ok((ValueV::Bool(false), 1)),
        Some(LTag::True) => Ok((ValueV::Bool(true), 1)),
        Some(LTag::OptNone) => match parse_type(r) {
            Ok((t, n)) => Ok((ValueV::Option(t, None), 1 + n)),
            Err(e) => Err(e),
        },
        Some(LTag::OptSome) => match parse_type(r) {
            Ok((t, n)) => if n > r.len() {
                Err(DecodeError::TooShort)
            } else {
                match parse_value(rest(r, n as int)) {
                    Ok((x, m)) => Ok((ValueV::Option(t, Some(Box::new(x))), 1 + n + m)),
                    Err(e) => Err(e),
                }
            },
            Err(e) => Err(e),
        },
        Some(LTag::Alias) => match parse_typeptr(r) {
            Ok((p, n)) => match parse_value(rest(r, n as int)) {
                Ok((x, m)) => Ok((ValueV::Alias(p, Box::new(x)), 1 + n + m)),
                Err(e) => Err(e),
            },
            Err(e) => Err(e),
        },
        Some(LTag::Type) => match parse_type(r) {
            Ok((t, n)) => Ok((ValueV::Type(t), 1 + n)),
            Err(e) => Err(e),
        },
        Some(LTag::TypePtr) => match parse_typeptr(r) {
            Ok((p, n)) => Ok((ValueV::TypePtr(p), 1 + n)),
            Err(e) => Err(e),
        },
        Some(LTag::ObjectPtr) => if r.len() < 10 {
            Err(DecodeError::TooShort)
        } else {
            Ok((ValueV::ObjectPtr(objectptr_of(r)), 11))
        },
        Some(LTag::Timestamp) => if r.len() < 12 {
            Err(DecodeError::TooShort)
        } else {
            Ok((ValueV::Timestamp(timestamp_of(r)), 13))
        },
        Some(LTag::UInt8) => if r.len() < 1 {
            Err(DecodeError::TooShort)
        } else {
            Ok((ValueV::UInt8(r[0]), 2))
        },
        Some(LTag::UInt16) => if r.len() < 2 {
            Err(DecodeError::TooShort)
        } else {
            Ok((ValueV::UInt16(from_be16(r)), 3))
        },
        Some(LTag::UInt32) => if r.len() < 4 {
            Err(DecodeError::TooShort)
        } else {
            Ok((ValueV::UInt32(from_be32(r)), 5))
        },
    }
}

/// Reads an integer or a float after its tag byte.
pub open spec fn parse_number(h: HTag, l: u8, r: Seq<u8>) -> Result<(ValueV, nat), DecodeError>
{
    match h {
        HTag::Int => match parse_uvar(l, r) {
            Ok((u, n)) => Ok((ValueV::Int(unzigzag(u)), 1 + n)),
            Err(e) => Err(e),
        },
        HTag::UInt => match parse_uvar(l, r) {
            Ok((u, n)) => Ok((ValueV::UInt(u), 1 + n)),
            Err(e) => Err(e),
        },
        HTag::Float => match parse_float(l, r) {
            Ok((f, n)) => Ok((ValueV::Float(f), 1 + n)),
            Err(e) => Err(e),
        },
        _ => Err(DecodeError::HTag(h.code())),
    }
}

/// Reads a string or a byte string after its tag byte.
pub open spec fn parse_blob(h: HTag, l: u8, r: Seq<u8>) -> Result<(ValueV, nat), DecodeError>
{
    match h {
        HTag::String => match parse_uvar(l, r) {
            Ok((len, n)) => if rest(r, n as int).len() < len {
                Err(DecodeError::TooShort)
            } else {
                let b = rest(r, n as int).subrange(0, len as int);
                if valid_utf8(b) {
                    Ok((ValueV::String(decode_utf8(b)), 1 + n + len as nat))
                } else {
                    Err(DecodeError::Utf8)
                }
            },
            Err(e) => Err(e),
        },
        HTag::Bytes => match parse_uvar(l, r) {
            Ok((len, n)) => if rest(r, n as int).len() < len {
                Err(DecodeError::TooShort)
            } else {
                Ok((ValueV::Bytes(rest(r, n as int).subrange(0, len as int)), 1 + n + len as nat))
            },
            Err(e) => Err(e),
        },
        _ => Err(DecodeError::HTag(h.code())),
    }
}

/// Reads a list, a map, a tuple or a record after its tag byte.
#[verifier::opaque]
pub open spec fn parse_seq(h: HTag, l: u8, r: Seq<u8>) -> Result<(ValueV, nat), DecodeError>
    decreases r.len() + 1, 0nat, 1nat,
{
    match h {
        HTag::List => match parse_uvar(l, r) {
            Ok((c, n)) => match parse_type(rest(r, n as int)) {
                Ok((t, n2)) => if n2 > rest(r, n as int).len() {
                    Err(DecodeError::TooShort)
                } else {
                    match parse_values(rest(rest(r, n as int), n2 as int), c as nat) {
                        Ok((vs, n3)) => Ok((ValueV::List(t, vs), 1 + n + n2 + n3)),
                        Err(e) => Err(e),
                    }
                },
                Err(e) => Err(e),
            },
            Err(e) => Err(e),
        },
        HTag::Dict => match parse_uvar(l, r) {
            Ok((c, n)) => match parse_type(rest(r, n as int)) {
                Ok((tk, n2)) => if n2 > rest(r, n as int).len() {
                    Err(DecodeError::TooShort)
                } else {
                    match parse_dict_rest(tk, c, rest(rest(r, n as int), n2 as int)) {
                        Ok((v, m)) => Ok((v, 1 + n + n2 + m)),
                        Err(e) => Err(e),
                    }
                },
                Err(e) => Err(e),
            },
            Err(e) => Err(e),
        },
        HTag::Tuple => match parse_uvar(l, r) {
            Ok((c, n)) => match parse_values(rest(r, n as int), c as nat) {
                Ok((vs, n2)) => Ok((ValueV::Tuple(vs), 1 + n + n2)),
                Err(e) => Err(e),
            },
            Err(e) => Err(e),
        },
        HTag::Struct => match parse_uvar(l, r) {
            Ok((c, n)) => match parse_typeptr(rest(r, n as int)) {
                Ok((p, n2)) => match parse_values(rest(rest(r, n as int), n2 as int), c as nat) {
                    Ok((vs, n3)) => Ok((ValueV::Struct(p, vs), 1 + n + n2 + n3)),
                    Err(e) => Err(e),
                },
                Err(e) => Err(e),
            },
            Err(e) => Err(e),
        },
        _ => Err(DecodeError::HTag(h.code())),
    }
}

/// Reads the value type and the `c` pairs of a map whose key type `tk` is
/// read.
#[verifier::opaque]
pub open spec fn parse_dict_rest(tk: TypeV, c: u64, r: Seq<u8>) -> Result<(ValueV, nat), DecodeError>
    decreases r.len() + 1, 0nat, 0nat,
{
    match parse_type(r) {
        Ok((tv, n)) => if n > r.len() {
            Err(DecodeError::TooShort)
        } else {
            match parse_values(rest(r, n as int), 2 * c as nat) {
                Ok((vs, m)) => Ok((ValueV::Dict(tk, tv, pair_up(vs)), n + m)),
                Err(e) => Err(e),
            }
        },
        Err(e) => Err(e),
    }
}

/// Reads an enumeration value after its tag byte.
#[verifier::opaque]
pub open spec fn parse_variant(h: HTag, l: u8, r: Seq<u8>) -> Result<(ValueV, nat), DecodeError>
    decreases r.len() + 1, 0nat, 1nat,
{
    match h {
        HTag::CEnum => match parse_uvar(l, r) {
            Ok((ev, n)) => match parse_typeptr(rest(r, n as int)) {
                Ok((p, n2)) => Ok((ValueV::CEnum(p, ev), 1 + n + n2)),
                Err(e) => Err(e),
            },
            Err(e) => Err(e),
        },
        HTag::Enum => match parse_uvar(l, r) {
            Ok((ev, n)) => match parse_typeptr(rest(r, n as int)) {
                Ok((p, n2)) => match parse_value(rest(rest(r, n as int), n2 as int)) {
                    Ok((x, n3)) => Ok((ValueV::Enum(p, ev, Box::new(x)), 1 + n + n2 + n3)),
                    Err(e) => Err(e),
                },
                Err(e) => Err(e),
            },
            Err(e) => Err(e),
        },
        _ => Err(DecodeError::HTag(h.code())),
    }
}

/// Reads `count` values one after the other.
#[verifier::opaque]
pub open spec fn parse_values(s: Seq<u8>, count: nat) -> Result<(Seq<ValueV>, nat), DecodeError>
    decreases s.len(), 1nat, count,
{
    if count == 0 {
        Ok((seq![], 0))
    } else {
        match parse_values(s, (count - 1) as nat) {
            Ok((vs, n)) => if n > s.len() {
                Err(DecodeError::TooShort)
            } else {
                match parse_value(rest(s, n as int)) {
                    Ok((v, m)) => Ok((vs.push(v), n + m)),
                    Err(e) => Err(e),
                }
            },
            Err(e) => Err(e),
        }
    }
}

/// The values of `vs` taken two by two.
pub open spec fn pair_up(vs: Seq<ValueV>) -> Seq<(ValueV, ValueV)> {
    Seq::new(vs.len() / 2, |i: int| (vs[2 * i], vs[2 * i + 1]))
}

/// Each pair's key, then its value.
pub open spec fn flatten(ps: Seq<(ValueV, ValueV)>) -> Seq<ValueV> {
    Seq::new(
        2 * ps.len(),
        |i: int|
            if i % 2 == 0 {
                ps[i / 2].0
            } else {
                ps[i / 2].1
            },
    )
}

pub proof fn lemma_pair_up_flatten(ps: Seq<(ValueV, ValueV)>)
    ensures
        pair_up(flatten(ps)) == ps,
{
    assert(pair_up(flatten(ps)) =~= ps);
}

pub proof fn lemma_unfold_value(s: Seq<u8>)
    ensures
        parse_value(s) == {
        if s.len() == 0 {
            Err(DecodeError::TooShort)
        } else {
            parse_tagged(s[0] / 16, s[0] % 16, rest(s, 1))
        }
        },
{
    reveal_with_fuel(parse_value, 1);
    reveal_with_fuel(parse_tagged, 1);
    reveal_with_fuel(parse_inline, 1);
    reveal_with_fuel(parse_seq, 1);
    reveal_with_fuel(parse_dict_rest, 1);
    reveal_with_fuel(parse_variant, 1);
    reveal_with_fuel(parse_values, 1);
}

pub proof fn lemma_unfold_tagged(h: u8, l: u8, r: Seq<u8>)
    ensures
        parse_tagged(h, l, r) == {
        match HTag::of_code(h) {
            None => Err(DecodeError::HTag(h)),
            Some(HTag::L4) => parse_inline(l, r),
            Some(HTag::Int) => parse_number(HTag::Int, l, r),
            Some(HTag::UInt) => parse_number(HTag::UInt, l, r),
            Some(HTag::Float) => parse_number(HTag::Float, l, r),
            Some(HTag::String) => parse_blob(HTag::String, l, r),
            Some(HTag::Bytes) => parse_blob(HTag::Bytes, l, r),
            Some(HTag::List) => parse_seq(HTag::List, l, r),
            Some(HTag::Dict) => parse_seq(HTag::Dict, l, r),
            Some(HTag::Tuple) => parse_seq(HTag::Tuple, l, r),
            Some(HTag::Struct) => parse_seq(HTag::Struct, l, r),
            Some(HTag::CEnum) => parse_variant(HTag::CEnum, l, r),
            Some(HTag::Enum) => parse_variant(HTag::Enum, l, r),
        }
        },
{
    reveal_with_fuel(parse_value, 1);
    reveal_with_fuel(parse_tagged, 1);
    reveal_with_fuel(parse_inline, 1);
    reveal_with_fuel(parse_seq, 1);
    reveal_with_fuel(parse_dict_rest, 1);
    reveal_with_fuel(parse_variant, 1);
    reveal_with_fuel(parse_values, 1);
}

pub proof fn lemma_unfold_inline(l: u8, r: Seq<u8>)
    ensures
        parse_inline(l, r) == {
        match LTag::of_code(l) {
            None => Err(DecodeError::LTag(l)),
            Some(LTag::Unit) => Ok((ValueV::Unit, 1)),
            Some(LTag::False) => Ok((ValueV::Bool(false), 1)),
            Some(LTag::True) => Ok((ValueV::Bool(true), 1)),
            Some(LTag::OptNone) => match parse_type(r) {
                Ok((t, n)) => Ok((ValueV::Option(t, None), 1 + n)),
                Err(e) => Err(e),
            },
            Some(LTag::OptSome) => match parse_type(r) {
                Ok((t, n)) => if n > r.len() {
                    Err(DecodeError::TooShort)
                } else {
                    match parse_value(rest(r, n as int)) {
                        Ok((x, m)) => Ok((ValueV::Option(t, Some(Box::new(x))), 1 + n + m)),
                        Err(e) => Err(e),
                    }
                },
                Err(e) => Err(e),
            },
            Some(LTag::Alias) => match parse_typeptr(r) {
                Ok((p, n)) => match parse_value(rest(r, n as int)) {
                    Ok((x, m)) => Ok((ValueV::Alias(p, Box::new(x)), 1 + n + m)),
                    Err(e) => Err(e),
                },
                Err(e) => Err(e),
            },
            Some(LTag::Type) => match parse_type(r) {
                Ok((t, n)) => Ok((ValueV::Type(t), 1 + n)),
                Err(e) => Err(e),
            },
            Some(LTag::TypePtr) => match parse_typeptr(r) {
                Ok((p, n)) => Ok((ValueV::TypePtr(p), 1 + n)),
                Err(e) => Err(e),
            },
            Some(LTag::ObjectPtr) => if r.len() < 10 {
                Err(DecodeError::TooShort)
            } else {
                Ok((ValueV::ObjectPtr(objectptr_of(r)), 11))
            },
            Some(LTag::Timestamp) => if r.len() < 12 {
                Err(DecodeError::TooShort)
            } else {
                Ok((ValueV::Timestamp(timestamp_of(r)), 13))
            },
            Some(LTag::UInt8) => if r.len() < 1 {
                Err(DecodeError::TooShort)
            } else {
                Ok((ValueV::UInt8(r[0]), 2))
            },
            Some(LTag::UInt16) => if r.len() < 2 {
                Err(DecodeError::TooShort)
            } else {
                Ok((ValueV::UInt16(from_be16(r)), 3))
            },
            Some(LTag::UInt32) => if r.len() < 4 {
                Err(DecodeError::TooShort)
            } else {
                Ok((ValueV::UInt32(from_be32(r)), 5))
            },
        }
        },
{
    reveal_with_fuel(parse_value, 1);
    reveal_with_fuel(parse_tagged, 1);
    reveal_with_fuel(parse_inline, 1);
    reveal_with_fuel(parse_seq, 1);
    reveal_with_fuel(parse_dict_rest, 1);
    reveal_with_fuel(parse_variant, 1);
    reveal_with_fuel(parse_values, 1);
}

pub proof fn lemma_unfold_seq(h: HTag, l: u8, r: Seq<u8>)
    ensures
        parse_seq(h, l, r) == {
        match h {
            HTag::List => match parse_uvar(l, r) {
                Ok((c, n)) => match parse_type(rest(r, n as int)) {
                    Ok((t, n2)) => if n2 > rest(r, n as int).len() {
                        Err(DecodeError::TooShort)
                    } else {
                        match parse_values(rest(rest(r, n as int), n2 as int), c as nat) {
                            Ok((vs, n3)) => Ok((ValueV::List(t, vs), 1 + n + n2 + n3)),
                            Err(e) => Err(e),
                        }
                    },
                    Err(e) => Err(e),
                },
                Err(e) => Err(e),
            },
            HTag::Dict => match parse_uvar(l, r) {
                Ok((c, n)) => match parse_type(rest(r, n as int)) {
                    Ok((tk, n2)) => if n2 > rest(r, n as int).len() {
                        Err(DecodeError::TooShort)
                    } else {
                        match parse_dict_rest(tk, c, rest(rest(r, n as int), n2 as int)) {
                            Ok((v, m)) => Ok((v, 1 + n + n2 + m)),
                            Err(e) => Err(e),
                        }
                    },
                    Err(e) => Err(e),
                },
                Err(e) => Err(e),
            },
            HTag::Tuple => match parse_uvar(l, r) {
                Ok((c, n)) => match parse_values(rest(r, n as int), c as nat) {
                    Ok((vs, n2)) => Ok((ValueV::Tuple(vs), 1 + n + n2)),
                    Err(e) => Err(e),
                },
                Err(e) => Err(e),
            },
            HTag::Struct => match parse_uvar(l, r) {
                Ok((c, n)) => match parse_typeptr(rest(r, n as int)) {
                    Ok((p, n2)) => match parse_values(rest(rest(r, n as int), n2 as int), c as nat) {
                        Ok((vs, n3)) => Ok((ValueV::Struct(p, vs), 1 + n + n2 + n3)),
                        Err(e) => Err(e),
                    },
                    Err(e) => Err(e),
                },
                Err(e) => Err(e),
            },
            _ => Err(DecodeError::HTag(h.code())),
        }
        },
{
    reveal_with_fuel(parse_value, 1);
    reveal_with_fuel(parse_tagged, 1);
    reveal_with_fuel(parse_inline, 1);
    reveal_with_fuel(parse_seq, 1);
    reveal_with_fuel(parse_dict_rest, 1);
    reveal_with_fuel(parse_variant, 1);
    reveal_with_fuel(parse_values, 1);
}

pub proof fn lemma_unfold_dict_rest(tk: TypeV, c: u64, r: Seq<u8>)
    ensures
        parse_dict_rest(tk, c, r) == {
        match parse_type(r) {
            Ok((tv, n)) => if n > r.len() {
                Err(DecodeError::TooShort)
            } else {
                match parse_values(rest(r, n as int), 2 * c as nat) {
                    Ok((vs, m)) => Ok((ValueV::Dict(tk, tv, pair_up(vs)), n + m)),
                    Err(e) => Err(e),
                }
            },
            Err(e) => Err(e),
        }
        },
{
    reveal_with_fuel(parse_value, 1);
    reveal_with_fuel(parse_tagged, 1);
    reveal_with_fuel(parse_inline, 1);
    reveal_with_fuel(parse_seq, 1);
    reveal_with_fuel(parse_dict_rest, 1);
    reveal_with_fuel(parse_variant, 1);
    reveal_with_fuel(parse_values, 1);
}

pub proof fn lemma_unfold_variant(h: HTag, l: u8, r: Seq<u8>)
    ensures
        parse_variant(h, l, r) == {
        match h {
            HTag::CEnum => match parse_uvar(l, r) {
                Ok((ev, n)) => match parse_typeptr(rest(r, n as int)) {
                    Ok((p, n2)) => Ok((ValueV::CEnum(p, ev), 1 + n + n2)),
                    Err(e) => Err(e),
                },
                Err(e) => Err(e),
            },
            HTag::Enum => match parse_uvar(l, r) {
                Ok((ev, n)) => match parse_typeptr(rest(r, n as int)) {
                    Ok((p, n2)) => match parse_value(rest(rest(r, n as int), n2 as int)) {
                        Ok((x, n3)) => Ok((ValueV::Enum(p, ev, Box::new(x)), 1 + n + n2 + n3)),
                        Err(e) => Err(e),
                    },
                    Err(e) => Err(e),
                },
                Err(e) => Err(e),
            },
            _ => Err(DecodeError::HTag(h.code())),
        }
        },
{
    reveal_with_fuel(parse_value, 1);
    reveal_with_fuel(parse_tagged, 1);
    reveal_with_fuel(parse_inline, 1);
    reveal_with_fuel(parse_seq, 1);
    reveal_with_fuel(parse_dict_rest, 1);
    reveal_with_fuel(parse_variant, 1);
    reveal_with_fuel(parse_values, 1);
}

pub proof fn lemma_unfold_values(s: Seq<u8>, count: nat)
    ensures
        parse_values(s, count) == {
        if count == 0 {
            Ok((seq![], 0))
        } else {
            match parse_values(s, (count - 1) as nat) {
                Ok((vs, n)) => if n > s.len() {
                    Err(DecodeError::TooShort)
                } else {
                    match parse_value(rest(s, n as int)) {
                        Ok((v, m)) => Ok((vs.push(v), n + m)),
                        Err(e) => Err(e),
                    }
                },
                Err(e) => Err(e),
            }
        }
        },
{
    reveal_with_fuel(parse_value, 1);
    reveal_with_fuel(parse_tagged, 1);
    reveal_with_fuel(parse_inline, 1);
    reveal_with_fuel(parse_seq, 1);
    reveal_with_fuel(parse_dict_rest, 1);
    reveal_with_fuel(parse_variant, 1);
    reveal_with_fuel(parse_values, 1);
}

/// What `bytes` decodes to: one value that takes all of them, or the error
/// met first.
pub open spec fn decode_bytes(s: Seq<u8>) -> Result<ValueV, DecodeError> {
    match parse_value(s) {
        Ok((v, n)) => if n == s.len() {
            Ok(v)
        } else {
            Err(DecodeError::TooLong((s.len() - n) as usize))
        },
        Err(e) => Err(e),
    }
}

} // verus!

verus! {

broadcast use lemma_rest_rest;

/// Relies on `String::from_utf8`: it succeeds exactly when the bytes are
/// valid UTF-8, and the string then holds those bytes.
#[verifier::external_body]
fn string_from_utf8(b: Vec<u8>) -> (r: Option<String>)
    ensures
        r is Some <==> valid_utf8(b@),
        r matches Some(st) ==> encode_utf8(st@) == b@,
{
    String::from_utf8(b).ok()
}

pub proof fn lemma_types_err(x: Seq<u8>, i: nat, c: nat, e: DecodeError)
    requires
        parse_types(x, i) == Err::<(Seq<TypeV>, nat), DecodeError>(e),
        i <= c,
    ensures
        parse_types(x, c) == Err::<(Seq<TypeV>, nat), DecodeError>(e),
    decreases c,
{
    reveal_with_fuel(parse_type, 1);
    reveal_with_fuel(parse_types, 1);
    if c > i {
        lemma_types_err(x, i, (c - 1) as nat, e);
    }
}

pub proof fn lemma_values_err(x: Seq<u8>, i: nat, c: nat, e: DecodeError)
    requires
        parse_values(x, i) == Err::<(Seq<ValueV>, nat), DecodeError>(e),
        i <= c,
    ensures
        parse_values(x, c) == Err::<(Seq<ValueV>, nat), DecodeError>(e),
    decreases c,
{
    lemma_unfold_values(x, c);
    if c > i {
        lemma_values_err(x, i, (c - 1) as nat, e);
    }
}

/// Reads a type descriptor at `pos`.
pub fn read_type(s: &[u8], pos: usize) -> (r: Result<(Type, usize), DecodeError>)
    requires
        pos <= s@.len(),
    ensures
        match r {
            Ok((t, p)) => pos < p <= s@.len() && parse_type(rest(s@, pos as int)) == Ok::<
                (TypeV, nat),
                DecodeError,
            >((t@, (p - pos) as nat)),
            Err(e) => parse_type(rest(s@, pos as int)) == Err::<(TypeV, nat), DecodeError>(e),
        },
    decreases s@.len() - pos, 0nat,
{
    proof {
        reveal_with_fuel(parse_type, 1);
        reveal_with_fuel(parse_types, 1);
    }
    let n = s.len();
    if pos >= n {
        return Err(DecodeError::TooShort);
    }
    let b = s[pos];
    let q = pos + 1;
    match Tag::from_u8(b) {
        None => Err(DecodeError::Tag(b)),
        Some(tag) => match tag {
            Tag::Option => match read_type(s, q) {
                Ok((x, p)) => Ok((Type::Option(Box::new(x)), p)),
                Err(e) => Err(e),
            },
            Tag::List => match read_type(s, q) {
                Ok((x, p)) => Ok((Type::List(Box::new(x)), p)),
                Err(e) => Err(e),
            },
            Tag::Dict => match read_type(s, q) {
                Ok((k, p)) => match read_type(s, p) {
                    Ok((v, p2)) => Ok((Type::Dict(Box::new(k), Box::new(v)), p2)),
                    Err(e) => Err(e),
                },
                Err(e) => Err(e),
            },
            Tag::Tuple => {
                if q >= n {
                    return Err(DecodeError::TooShort);
                }
                let c = s[q];
                match read_types(s, q + 1, c) {
                    Ok((ts, p)) => Ok((Type::Tuple(ts), p)),
                    Err(e) => Err(e),
                }
            },
            Tag::Alias => match read_typeptr(s, q) {
                Ok((p, p2)) => Ok((Type::Alias(p), p2)),
                Err(e) => Err(e),
            },
            Tag::CEnum => match read_typeptr(s, q) {
                Ok((p, p2)) => Ok((Type::CEnum(p), p2)),
                Err(e) => Err(e),
            },
            Tag::Enum => match read_typeptr(s, q) {
                Ok((p, p2)) => Ok((Type::Enum(p), p2)),
                Err(e) => Err(e),
            },
            Tag::Struct => match read_typeptr(s, q) {
                Ok((p, p2)) => Ok((Type::Struct(p), p2)),
                Err(e) => Err(e),
            },
            Tag::Unknown => Ok((Type::Unknown, q)),
            Tag::Unit => Ok((Type::Unit, q)),
            Tag::Bool => Ok((Type::Bool, q)),
            Tag::Int => Ok((Type::Int, q)),
            Tag::UInt => Ok((Type::UInt, q)),
            Tag::Float => Ok((Type::Float, q)),
            Tag::String => Ok((Type::String, q)),
            Tag::Bytes => Ok((Type::Bytes, q)),
            Tag::Type => Ok((Type::Type, q)),
            Tag::TypePtr => Ok((Type::TypePtr, q)),
            Tag::ObjectPtr => Ok((Type::ObjectPtr, q)),
            Tag::Timestamp => Ok((Type::Timestamp, q)),
            Tag::UInt8 => Ok((Type::UInt8, q)),
            Tag::UInt16 => Ok((Type::UInt16, q)),
            Tag::UInt32 => Ok((Type::UInt32, q)),
        },
    }
}

/// Reads `c` type descriptors from `pos` on.
fn read_types(s: &[u8], pos: usize, c: u8) -> (r: Result<(Vec<Type>, usize), DecodeError>)
    requires
        pos <= s@.len(),
    ensures
        match r {
            Ok((ts, p)) => pos <= p <= s@.len() && parse_types(rest(s@, pos as int), c as nat)
                == Ok::<(Seq<TypeV>, nat), DecodeError>((types_view(ts@), (p - pos) as nat)),
            Err(e) => parse_types(rest(s@, pos as int), c as nat) == Err::<
                (Seq<TypeV>, nat),
                DecodeError,
            >(e),
        },
    decreases s@.len() - pos, 1nat,
{
    proof {
        reveal_with_fuel(parse_type, 1);
        reveal_with_fuel(parse_types, 1);
    }
    let mut ts: Vec<Type> = Vec::new();
    let mut p = pos;
    let mut i: u8 = 0;
    while i < c
        invariant
            pos <= p <= s@.len(),
            i <= c,
            parse_types(rest(s@, pos as int), i as nat) == Ok::<(Seq<TypeV>, nat), DecodeError>(
                (types_view(ts@), (p - pos) as nat),
            ),
        decreases c - i,
    {
        proof {
            reveal_with_fuel(parse_type, 1);
            reveal_with_fuel(parse_types, 1);
        }
        match read_type(s, p) {
            Ok((t, q)) => {
                proof {
                    assert(ts@.push(t).subrange(0, ts@.len() as int) =~= ts@);
                }
                ts.push(t);
                p = q;
                i = i + 1;
            },
            Err(e) => {
                proof {
                    lemma_types_err(rest(s@, pos as int), (i + 1) as nat, c as nat, e);
                }
                return Err(e);
            },
        }
    }
    Ok((ts, p))
}


/// The readers of values below share this shape of result: the value and the
/// position after it, matching `spec` on the bytes from `pos` on.
pub open spec fn read_matches(
    s: Seq<u8>,
    pos: int,
    r: Result<(Value, usize), DecodeError>,
    spec: Result<(ValueV, nat), DecodeError>,
) -> bool {
    match r {
        Ok((v, p)) => pos < p <= s.len() && spec == Ok::<(ValueV, nat), DecodeError>(
            (v@, (p - pos) as nat),
        ),
        Err(e) => spec == Err::<(ValueV, nat), DecodeError>(e),
    }
}

/// Reads a value at `pos`.
#[verifier::rlimit(100)]
#[verifier::spinoff_prover]
pub fn read_value(s: &[u8], pos: usize) -> (r: Result<(Value, usize), DecodeError>)
    requires
        pos <= s@.len(),
    ensures
        read_matches(s@, pos as int, r, parse_value(rest(s@, pos as int))),
    decreases s@.len() - pos, 0nat, 3nat,
{
    let n = s.len();
    proof {
        lemma_unfold_value(rest(s@, pos as int));
    }
    if pos >= n {
        return Err(DecodeError::TooShort);
    }
    let b = s[pos];
    let h = b / 16;
    let l = b % 16;
    proof {
        lemma_unfold_tagged(h, l, rest(s@, pos + 1));
    }
    match HTag::from_u8(h) {
        None => Err(DecodeError::HTag(h)),
        Some(t) => match t {
            HTag::L4 => read_inline(s, pos, l),
            HTag::Int | HTag::UInt | HTag::Float => read_number(s, pos, t, l),
            HTag::String | HTag::Bytes => read_blob(s, pos, t, l),
            HTag::List => read_list(s, pos, l),
            HTag::Dict => read_dict(s, pos, l),
            HTag::Tuple => read_tuple(s, pos, l),
            HTag::Struct => read_struct(s, pos, l),
            HTag::CEnum | HTag::Enum => read_variant(s, pos, t, l),
        },
    }
}

/// Reads the rest of an inline value whose tag byte is at `pos`.
#[verifier::rlimit(100)]
#[verifier::spinoff_prover]
fn read_inline(s: &[u8], pos: usize, l: u8) -> (r: Result<(Value, usize), DecodeError>)
    requires
        pos < s@.len(),
    ensures
        read_matches(s@, pos as int, r, parse_inline(l, rest(s@, pos + 1))),
    decreases s@.len() - pos, 0nat, 1nat,
{
    let n = s.len();
    let q = pos + 1;
    proof {
        lemma_unfold_inline(l, rest(s@, pos + 1));
    }
    match LTag::from_u8(l) {
        None => Err(DecodeError::LTag(l)),
        Some(lt) => match lt {
            LTag::Unit => Ok((Value::Unit, q)),
            LTag::False => Ok((Value::Bool(false), q)),
            LTag::True => Ok((Value::Bool(true), q)),
            LTag::OptNone => match read_type(s, q) {
                Ok((t, p)) => Ok((Value::Option(t, Box::new(None)), p)),
                Err(e) => Err(e),
            },
            LTag::OptSome => match read_type(s, q) {
                Ok((t, p)) => match read_value(s, p) {
                    Ok((x, p2)) => Ok((Value::Option(t, Box::new(Some(x))), p2)),
                    Err(e) => Err(e),
                },
                Err(e) => Err(e),
            },
            LTag::Alias => match read_typeptr(s, q) {
                Ok((ptr, p)) => match read_value(s, p) {
                    Ok((x, p2)) => Ok((Value::Alias(ptr, Box::new(x)), p2)),
                    Err(e) => Err(e),
                },
                Err(e) => Err(e),
            },
            LTag::Type => match read_type(s, q) {
                Ok((t, p)) => Ok((Value::Type(t), p)),
                Err(e) => Err(e),
            },
            LTag::TypePtr => match read_typeptr(s, q) {
                Ok((ptr, p)) => Ok((Value::TypePtr(ptr), p)),
                Err(e) => Err(e),
            },
            LTag::ObjectPtr => {
                if n - q < 10 {
                    Err(DecodeError::TooShort)
                } else {
                    Ok((Value::ObjectPtr(read_objectptr(s, q)), q + 10))
                }
            },
            LTag::Timestamp => {
                if n - q < 12 {
                    Err(DecodeError::TooShort)
                } else {
                    Ok((Value::Timestamp(read_timestamp(s, q)), q + 12))
                }
            },
            LTag::UInt8 => {
                if n - q < 1 {
                    Err(DecodeError::TooShort)
                } else {
                    Ok((Value::UInt8(s[q]), q + 1))
                }
            },
            LTag::UInt16 => {
                if n - q < 2 {
                    Err(DecodeError::TooShort)
                } else {
                    Ok((Value::UInt16(read_u16(s, q)), q + 2))
                }
            },
            LTag::UInt32 => {
                if n - q < 4 {
                    Err(DecodeError::TooShort)
                } else {
                    Ok((Value::UInt32(read_u32(s, q)), q + 4))
                }
            },
        },
    }
}

/// Reads the rest of an integer or a float whose tag byte is at `pos`.
#[verifier::rlimit(100)]
#[verifier::spinoff_prover]
fn read_number(s: &[u8], pos: usize, h: HTag, l: u8) -> (r: Result<(Value, usize), DecodeError>)
    requires
        pos < s@.len(),
        h == HTag::Int || h == HTag::UInt || h == HTag::Float,
    ensures
        read_matches(s@, pos as int, r, parse_number(h, l, rest(s@, pos + 1))),
{
    let n = s.len();
    let q = pos + 1;
    match h {
        HTag::Float => match read_float(s, q, l) {
            Ok((f, p)) => Ok((Value::Float(f), p)),
            Err(e) => Err(e),
        },
        HTag::Int => match read_uvar(s, q, l) {
            Ok((u, p)) => Ok((Value::Int(zigzag_decode(u)), p)),
            Err(e) => Err(e),
        },
        _ => match read_uvar(s, q, l) {
            Ok((u, p)) => Ok((Value::UInt(u), p)),
            Err(e) => Err(e),
        },
    }
}

/// Reads the rest of a string or a byte string whose tag byte is at `pos`.
#[verifier::rlimit(100)]
#[verifier::spinoff_prover]
fn read_blob(s: &[u8], pos: usize, h: HTag, l: u8) -> (r: Result<(Value, usize), DecodeError>)
    requires
        pos < s@.len(),
        h == HTag::String || h == HTag::Bytes,
    ensures
        read_matches(s@, pos as int, r, parse_blob(h, l, rest(s@, pos + 1))),
{
    let n = s.len();
    let q = pos + 1;
    match read_uvar(s, q, l) {
        Err(e) => Err(e),
        Ok((len, p)) => {
            if ((n - p) as u64) < len {
                return Err(DecodeError::TooShort);
            }
            let end = p + len as usize;
            let mut b: Vec<u8> = Vec::new();
            push_bytes(&mut b, &s[p..end]);
            proof {
                assert(b@ =~= rest(rest(s@, pos + 1), (p - q) as int).subrange(0, len as int));
            }
            match h {
                HTag::Bytes => Ok((Value::Bytes(b), end)),
                _ => match string_from_utf8(b) {
                    Some(st) => {
                        proof {
                            vstd::utf8::encode_utf8_decode_utf8(st@);
                        }
                        Ok((Value::String(st), end))
                    },
                    None => Err(DecodeError::Utf8),
                },
            }
        },
    }
}

/// Reads the rest of a list whose tag byte is at `pos`.
#[verifier::rlimit(100)]
#[verifier::spinoff_prover]
fn read_list(s: &[u8], pos: usize, l: u8) -> (r: Result<(Value, usize), DecodeError>)
    requires
        pos < s@.len(),
    ensures
        read_matches(s@, pos as int, r, parse_seq(HTag::List, l, rest(s@, pos + 1))),
    decreases s@.len() - pos, 0nat, 1nat,
{
    let n = s.len();
    let q = pos + 1;
    proof {
        lemma_unfold_seq(HTag::List, l, rest(s@, pos + 1));
    }
    match read_uvar(s, q, l) {
        Err(e) => Err(e),
        Ok((c, p)) => match read_type(s, p) {
            Ok((t, p2)) => match read_values(s, p2, c) {
                Ok((vs, p3)) => Ok((Value::List(t, vs), p3)),
                Err(e) => Err(e),
            },
            Err(e) => Err(e),
        },
    }
}

/// Reads the rest of a map whose tag byte is at `pos`.
#[verifier::rlimit(100)]
#[verifier::spinoff_prover]
fn read_dict(s: &[u8], pos: usize, l: u8) -> (r: Result<(Value, usize), DecodeError>)
    requires
        pos < s@.len(),
    ensures
        read_matches(s@, pos as int, r, parse_seq(HTag::Dict, l, rest(s@, pos + 1))),
    decreases s@.len() - pos, 0nat, 1nat,
{
    let n = s.len();
    let q = pos + 1;
    proof {
        lemma_unfold_seq(HTag::Dict, l, rest(s@, pos + 1));
    }
    let ghost r0 = rest(s@, pos + 1);
    let (c, p) = match read_uvar(s, q, l) {
        Err(e) => return Err(e),
        Ok(x) => x,
    };
    let ghost r1 = rest(r0, (p - q) as int);
    assert(r1 == rest(s@, p as int));
    let (tk, p2) = match read_type(s, p) {
        Err(e) => return Err(e),
        Ok(x) => x,
    };
    let ghost r2 = rest(r1, (p2 - p) as int);
    assert(r2 == rest(s@, p2 as int));
    read_dict_rest(s, p2, tk, c)
}

/// Reads at `pos` the value type and the `c` pairs of a map whose key type is
/// `tk`.
#[verifier::rlimit(100)]
#[verifier::spinoff_prover]
fn read_dict_rest(s: &[u8], pos: usize, tk: Type, c: u64) -> (r: Result<(Value, usize), DecodeError>)
    requires
        pos <= s@.len(),
    ensures
        read_matches(s@, pos as int, r, parse_dict_rest(tk@, c, rest(s@, pos as int))),
    decreases s@.len() - pos, 0nat, 0nat,
{
    proof {
        lemma_unfold_dict_rest(tk@, c, rest(s@, pos as int));
    }
    let (tv, p) = match read_type(s, pos) {
        Err(e) => return Err(e),
        Ok(x) => x,
    };
    let (ps, p2) = match read_pairs(s, p, c) {
        Err(e) => return Err(e),
        Ok(x) => x,
    };
    proof {
        lemma_pair_up_flatten(pairs_view(ps@));
    }
    Ok((Value::Dict(tk, tv, ps), p2))
}

/// Reads the rest of a tuple whose tag byte is at `pos`.
#[verifier::rlimit(100)]
#[verifier::spinoff_prover]
fn read_tuple(s: &[u8], pos: usize, l: u8) -> (r: Result<(Value, usize), DecodeError>)
    requires
        pos < s@.len(),
    ensures
        read_matches(s@, pos as int, r, parse_seq(HTag::Tuple, l, rest(s@, pos + 1))),
    decreases s@.len() - pos, 0nat, 1nat,
{
    let n = s.len();
    let q = pos + 1;
    proof {
        lemma_unfold_seq(HTag::Tuple, l, rest(s@, pos + 1));
    }
    match read_uvar(s, q, l) {
        Err(e) => Err(e),
        Ok((c, p)) => match read_values(s, p, c) {
            Ok((vs, p2)) => Ok((Value::Tuple(vs), p2)),
            Err(e) => Err(e),
        },
    }
}

/// Reads the rest of a record whose tag byte is at `pos`.
#[verifier::rlimit(100)]
#[verifier::spinoff_prover]
fn read_struct(s: &[u8], pos: usize, l: u8) -> (r: Result<(Value, usize), DecodeError>)
    requires
        pos < s@.len(),
    ensures
        read_matches(s@, pos as int, r, parse_seq(HTag::Struct, l, rest(s@, pos + 1))),
    decreases s@.len() - pos, 0nat, 1nat,
{
    let n = s.len();
    let q = pos + 1;
    proof {
        lemma_unfold_seq(HTag::Struct, l, rest(s@, pos + 1));
    }
    let ghost r0 = rest(s@, pos + 1);
    let (c, p) = match read_uvar(s, q, l) {
        Err(e) => return Err(e),
        Ok(x) => x,
    };
    let ghost r1 = rest(r0, (p - q) as int);
    assert(r1 == rest(s@, p as int));
    let (ptr, p2) = match read_typeptr(s, p) {
        Err(e) => return Err(e),
        Ok(x) => x,
    };
    let ghost r2 = rest(r1, (p2 - p) as int);
    assert(r2 == rest(s@, p2 as int));
    let (vs, p3) = match read_values(s, p2, c) {
        Err(e) => return Err(e),
        Ok(x) => x,
    };
    Ok((Value::Struct(ptr, vs), p3))
}

#[verifier::rlimit(100)]
#[verifier::spinoff_prover]
fn read_variant(s: &[u8], pos: usize, h: HTag, l: u8) -> (r: Result<(Value, usize), DecodeError>)
    requires
        pos < s@.len(),
        h == HTag::CEnum || h == HTag::Enum,
    ensures
        read_matches(s@, pos as int, r, parse_variant(h, l, rest(s@, pos + 1))),
    decreases s@.len() - pos, 0nat, 1nat,
{
    let n = s.len();
    let q = pos + 1;
    proof {
        lemma_unfold_variant(h, l, rest(s@, pos + 1));
    }
    match read_uvar(s, q, l) {
        Err(e) => Err(e),
        Ok((ev, p)) => match read_typeptr(s, p) {
            Err(e) => Err(e),
            Ok((ptr, p2)) => match h {
                HTag::CEnum => Ok((Value::CEnum(ptr, ev), p2)),
                _ => match read_value(s, p2) {
                    Ok((x, p3)) => Ok((Value::Enum(ptr, ev, Box::new(x)), p3)),
                    Err(e) => Err(e),
                },
            },
        },
    }
}

/// Reads `c` values from `pos` on.
#[verifier::rlimit(100)]
#[verifier::spinoff_prover]
fn read_values(s: &[u8], pos: usize, c: u64) -> (r: Result<(Vec<Value>, usize), DecodeError>)
    requires
        pos <= s@.len(),
    ensures
        match r {
            Ok((vs, p)) => pos <= p <= s@.len() && parse_values(rest(s@, pos as int), c as nat)
                == Ok::<(Seq<ValueV>, nat), DecodeError>((values_view(vs@), (p - pos) as nat)),
            Err(e) => parse_values(rest(s@, pos as int), c as nat) == Err::<
                (Seq<ValueV>, nat),
                DecodeError,
            >(e),
        },
    decreases s@.len() - pos, 1nat, 0nat,
{
    let mut vs: Vec<Value> = Vec::new();
    let mut p = pos;
    let mut i: u64 = 0;
    proof {
        lemma_unfold_values(rest(s@, pos as int), 0);
        assert(values_view(vs@) =~= seq![]);
    }
    while i < c
        invariant
            pos <= p <= s@.len(),
            i <= c,
            parse_values(rest(s@, pos as int), i as nat) == Ok::<(Seq<ValueV>, nat), DecodeError>(
                (values_view(vs@), (p - pos) as nat),
            ),
        decreases c - i,
    {
        proof {
            lemma_unfold_values(rest(s@, pos as int), (i + 1) as nat);
        }
        match read_value(s, p) {
            Ok((v, q)) => {
                proof {
                    assert(vs@.push(v).subrange(0, vs@.len() as int) =~= vs@);
                }
                vs.push(v);
                p = q;
                i = i + 1;
            },
            Err(e) => {
                proof {
                    lemma_values_err(rest(s@, pos as int), (i + 1) as nat, c as nat, e);
                }
                return Err(e);
            },
        }
    }
    Ok((vs, p))
}

/// Reads `c` key-value pairs from `pos` on.
#[verifier::rlimit(100)]
#[verifier::spinoff_prover]
fn read_pairs(s: &[u8], pos: usize, c: u64) -> (r: Result<(Vec<(Value, Value)>, usize), DecodeError>)
    requires
        pos <= s@.len(),
    ensures
        match r {
            Ok((ps, p)) => pos <= p <= s@.len() && parse_values(rest(s@, pos as int), 2 * c as nat)
                == Ok::<(Seq<ValueV>, nat), DecodeError>(
                (flatten(pairs_view(ps@)), (p - pos) as nat),
            ),
            Err(e) => parse_values(rest(s@, pos as int), 2 * c as nat) == Err::<
                (Seq<ValueV>, nat),
                DecodeError,
            >(e),
        },
    decreases s@.len() - pos, 1nat, 0nat,
{
    let mut ps: Vec<(Value, Value)> = Vec::new();
    let mut p = pos;
    let mut i: u64 = 0;
    proof {
        lemma_unfold_values(rest(s@, pos as int), 0);
        assert(flatten(pairs_view(ps@)) =~= seq![]);
    }
    while i < c
        invariant
            pos <= p <= s@.len(),
            i <= c,
            parse_values(rest(s@, pos as int), 2 * i as nat) == Ok::<
                (Seq<ValueV>, nat),
                DecodeError,
            >((flatten(pairs_view(ps@)), (p - pos) as nat)),
        decreases c - i,
    {
        let ghost fl = flatten(pairs_view(ps@));
        proof {
            lemma_unfold_values(rest(s@, pos as int), (2 * i + 1) as nat);
            lemma_unfold_values(rest(s@, pos as int), (2 * i + 2) as nat);
        }
        match read_value(s, p) {
            Ok((k, q)) => {
                assert(parse_values(rest(s@, pos as int), (2 * i + 1) as nat) == Ok::<
                    (Seq<ValueV>, nat),
                    DecodeError,
                >((fl.push(k@), (q - pos) as nat)));
                match read_value(s, q) {
                    Ok((v, q2)) => {
                        proof {
                            lemma_pairs_view(ps@);
                            lemma_pairs_view(ps@.push((k, v)));
                            assert(flatten(pairs_view(ps@.push((k, v)))) =~= fl.push(k@).push(v@));
                        }
                        ps.push((k, v));
                        p = q2;
                        i = i + 1;
                    },
                    Err(e) => {
                        proof {
                            lemma_values_err(
                                rest(s@, pos as int),
                                (2 * i + 2) as nat,
                                2 * c as nat,
                                e,
                            );
                        }
                        return Err(e);
                    },
                }
            },
            Err(e) => {
                proof {
                    lemma_values_err(rest(s@, pos as int), (2 * i + 1) as nat, 2 * c as nat, e);
                }
                return Err(e);
            },
        }
    }
    Ok((ps, p))
}

impl Value {
    /// Decodes a value that takes all of `buf`.
    pub fn decode(buf: &[u8]) -> (r: Result<Value, DecodeError>)
        ensures
            match r {
                Ok(v) => decode_bytes(buf@) == Ok::<ValueV, DecodeError>(v@),
                Err(e) => decode_bytes(buf@) == Err::<ValueV, DecodeError>(e),
            },
    {
        proof {
            assert(rest(buf@, 0) =~= buf@);
        }
        match read_value(buf, 0) {
            Ok((v, p)) => {
                if p == buf.len() {
                    Ok(v)
                } else {
                    Err(DecodeError::TooLong(buf.len() - p))
                }
            },
            Err(e) => Err(e),
        }
    }
}

} // verus!
