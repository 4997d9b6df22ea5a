//! The laws of the codec: decoding undoes encoding.
use crate::decode::{
    lemma_unfold_dict_rest, lemma_unfold_inline, lemma_unfold_seq, lemma_unfold_tagged,
    lemma_unfold_value, lemma_unfold_values, lemma_unfold_variant,
    decode_bytes, flatten, lemma_pair_up_flatten, pair_up, parse_dict_rest, parse_inline, parse_seq, parse_tagged, parse_type,
    parse_types, parse_value, parse_values, parse_variant,
};
use crate::encode::{enc_pairs, enc_type, enc_types, enc_value, enc_values, type_wf, value_wf};
use crate::meta::{parse_typeptr, TypePtr, enc_objectptr, enc_timestamp, enc_typeptr, lemma_objectptr, lemma_timestamp, lemma_typeptr};
use crate::types::{HTag, TypeV, ValueV};
use crate::wire::{
    be16, be32, be64, enc_head, float_bytes, trailing_zero_bytes, lemma_be64, lemma_be16, lemma_be32, lemma_float, lemma_uvar, lemma_zigzag,
    from_be16, from_be32, lemma_rest_rest, parse_uvar, rest, tag_byte, uvar_ext, uvar_low, zigzag, DecodeError,
};
use vstd::utf8::{encode_utf8, encode_utf8_decode_utf8, encode_utf8_valid_utf8};
use vstd::prelude::*;

verus! {

broadcast use lemma_rest_rest;

/// A type descriptor reads back from its wire form, whatever follows it.
pub proof fn lemma_type_round_trip(t: TypeV, tail: Seq<u8>)
    requires
        type_wf(t),
    ensures
        parse_type(enc_type(t) + tail) == Ok::<(TypeV, nat), DecodeError>((t, enc_type(t).len())),
    decreases t,
{
    reveal_with_fuel(parse_type, 1);
    reveal_with_fuel(parse_types, 1);
    let s = enc_type(t) + tail;
    let r = rest(s, 1);
    match t {
        TypeV::Option(x) => {
            assert(r =~= enc_type(*x) + tail);
            lemma_type_round_trip(*x, tail);
        },
        TypeV::List(x) => {
            assert(r =~= enc_type(*x) + tail);
            lemma_type_round_trip(*x, tail);
        },
        TypeV::Dict(k, v) => {
            assert(r =~= enc_type(*k) + (enc_type(*v) + tail));
            lemma_type_round_trip(*k, enc_type(*v) + tail);
            assert(rest(r, enc_type(*k).len() as int) =~= enc_type(*v) + tail);
            lemma_type_round_trip(*v, tail);
        },
        TypeV::Tuple(ts) => {
            assert(r[0] == ts.len() as u8);
            assert(rest(r, 1) =~= enc_types(ts) + tail);
            lemma_types_round_trip(ts, tail);
        },
        TypeV::Alias(p) => {
            assert(r =~= enc_typeptr(p) + tail);
            lemma_typeptr(p, tail);
        },
        TypeV::CEnum(p) => {
            assert(r =~= enc_typeptr(p) + tail);
            lemma_typeptr(p, tail);
        },
        TypeV::Enum(p) => {
            assert(r =~= enc_typeptr(p) + tail);
            lemma_typeptr(p, tail);
        },
        TypeV::Struct(p) => {
            assert(r =~= enc_typeptr(p) + tail);
            lemma_typeptr(p, tail);
        },
        _ => {},
    }
}

/// Type descriptors written one after the other read back in order.
pub proof fn lemma_types_round_trip(ts: Seq<TypeV>, tail: Seq<u8>)
    requires
        forall|i: int| 0 <= i < ts.len() ==> type_wf(ts[i]),
    ensures
        parse_types(enc_types(ts) + tail, ts.len()) == Ok::<(Seq<TypeV>, nat), DecodeError>(
            (ts, enc_types(ts).len()),
        ),
    decreases ts,
{
    reveal_with_fuel(parse_type, 1);
    reveal_with_fuel(parse_types, 1);
    if ts.len() > 0 {
        let n = ts.len() - 1;
        let front = ts.subrange(0, n);
        let last = ts[n];
        assert(enc_types(ts) + tail =~= enc_types(front) + (enc_type(last) + tail));
        lemma_types_round_trip(front, enc_type(last) + tail);
        assert(rest(enc_types(ts) + tail, enc_types(front).len() as int) =~= enc_type(last) + tail);
        lemma_type_round_trip(last, tail);
        assert(front.push(last) =~= ts);
    } else {
        assert(ts =~= seq![]);
    }
}


/// What the tag byte and the extra bytes of `enc_head(h, u)` read back as.
proof fn lemma_head(h: u8, u: u64, tail: Seq<u8>)
    requires
        h < 16,
    ensures
        (enc_head(h, u) + tail)[0] / 16 == h,
        (enc_head(h, u) + tail)[0] % 16 == uvar_low(u),
        rest(enc_head(h, u) + tail, 1) == uvar_ext(u) + tail,
        parse_uvar(uvar_low(u), uvar_ext(u) + tail) == Ok::<(u64, nat), DecodeError>(
            (u, uvar_ext(u).len()),
        ),
        enc_head(h, u).len() == 1 + uvar_ext(u).len(),
{
    lemma_uvar(u, tail);
    assert(rest(enc_head(h, u) + tail, 1) =~= uvar_ext(u) + tail);
}

/// A value reads back from its wire form, whatever follows it.
#[verifier::rlimit(100)]
#[verifier::spinoff_prover]
pub proof fn lemma_value_round_trip(v: ValueV, tail: Seq<u8>)
    requires
        value_wf(v),
    ensures
        parse_value(enc_value(v) + tail) == Ok::<(ValueV, nat), DecodeError>(
            (v, enc_value(v).len()),
        ),
    decreases v, 1nat,
{
    let s = enc_value(v) + tail;
    if v is Unit || v is Bool || v is UInt8 {
        lemma_unfold_value(s);
        lemma_unfold_tagged(s[0] / 16, s[0] % 16, rest(s, 1));
        lemma_unfold_inline(s[0] % 16, rest(s, 1));
    }
    match v {
        ValueV::Unit => {},
        ValueV::Bool(b) => {},
        ValueV::Int(i) => {
            lemma_rt_int(v, tail);
        },
        ValueV::UInt(u) => {
            lemma_rt_u_int(v, tail);
        },
        ValueV::Float(f) => {
            lemma_rt_float(v, tail);
        },
        ValueV::String(c) => {
            lemma_rt_string(v, tail);
        },
        ValueV::Bytes(b) => {
            lemma_rt_bytes(v, tail);
        },
        ValueV::Option(t, o) => {
            lemma_rt_option(v, tail);
        },
        ValueV::List(t, vs) => {
            lemma_rt_list(v, tail);
        },
        ValueV::Dict(tk, tv, ps) => {
            lemma_rt_dict(v, tail);
        },
        ValueV::Tuple(vs) => {
            lemma_rt_tuple(v, tail);
        },
        ValueV::Alias(p, x) => {
            lemma_rt_alias(v, tail);
        },
        ValueV::CEnum(p, e) => {
            lemma_rt_c_enum(v, tail);
        },
        ValueV::Enum(p, e, x) => {
            lemma_rt_enum(v, tail);
        },
        ValueV::Struct(p, vs) => {
            lemma_rt_struct(v, tail);
        },
        ValueV::Type(t) => {
            lemma_rt_type(v, tail);
        },
        ValueV::TypePtr(p) => {
            lemma_rt_type_ptr(v, tail);
        },
        ValueV::ObjectPtr(o) => {
            lemma_rt_object_ptr(v, tail);
        },
        ValueV::Timestamp(t) => {
            lemma_rt_timestamp(v, tail);
        },
        ValueV::UInt8(u) => {},
        ValueV::UInt16(u) => {
            lemma_rt_u_int16(v, tail);
        },
        ValueV::UInt32(u) => {
            lemma_rt_u_int32(v, tail);
        },
    }
}

#[verifier::rlimit(100)]
#[verifier::spinoff_prover]
proof fn lemma_rt_int(v: ValueV, tail: Seq<u8>)
    requires
        v is Int,
        value_wf(v),
    ensures
        parse_value(enc_value(v) + tail) == Ok::<(ValueV, nat), DecodeError>(
            (v, enc_value(v).len()),
        ),
    decreases v, 0nat,
{
    let s = enc_value(v) + tail;
    let r = rest(s, 1);
    lemma_unfold_value(s);
    lemma_unfold_tagged(s[0] / 16, s[0] % 16, r);
    match v {
        ValueV::Int(i) => {
            lemma_head(1, zigzag(i), tail);
            lemma_zigzag(i);
        },
        _ => {},
    }
}

#[verifier::rlimit(100)]
#[verifier::spinoff_prover]
proof fn lemma_rt_u_int(v: ValueV, tail: Seq<u8>)
    requires
        v is UInt,
        value_wf(v),
    ensures
        parse_value(enc_value(v) + tail) == Ok::<(ValueV, nat), DecodeError>(
            (v, enc_value(v).len()),
        ),
    decreases v, 0nat,
{
    let s = enc_value(v) + tail;
    let r = rest(s, 1);
    lemma_unfold_value(s);
    lemma_unfold_tagged(s[0] / 16, s[0] % 16, r);
    match v {
        ValueV::UInt(u) => {
            lemma_head(2, u, tail);
        },
        _ => {},
    }
}

#[verifier::rlimit(100)]
#[verifier::spinoff_prover]
proof fn lemma_rt_float(v: ValueV, tail: Seq<u8>)
    requires
        v is Float,
        value_wf(v),
    ensures
        parse_value(enc_value(v) + tail) == Ok::<(ValueV, nat), DecodeError>(
            (v, enc_value(v).len()),
        ),
    decreases v, 0nat,
{
    let s = enc_value(v) + tail;
    let r = rest(s, 1);
    lemma_unfold_value(s);
    lemma_unfold_tagged(s[0] / 16, s[0] % 16, r);
    match v {
        ValueV::Float(f) => {
            lemma_float(f, tail);
            assert(r =~= float_bytes(f) + tail);
        },
        _ => {},
    }
}

#[verifier::rlimit(100)]
#[verifier::spinoff_prover]
proof fn lemma_rt_string(v: ValueV, tail: Seq<u8>)
    requires
        v is String,
        value_wf(v),
    ensures
        parse_value(enc_value(v) + tail) == Ok::<(ValueV, nat), DecodeError>(
            (v, enc_value(v).len()),
        ),
    decreases v, 0nat,
{
    let s = enc_value(v) + tail;
    let r = rest(s, 1);
    lemma_unfold_value(s);
    lemma_unfold_tagged(s[0] / 16, s[0] % 16, r);
    match v {
        ValueV::String(c) => {
            let eb = encode_utf8(c);
            let len = eb.len() as u64;
            lemma_head(4, len, eb + tail);
            assert(s =~= enc_head(4, len) + (eb + tail));
            assert(rest(r, uvar_ext(len).len() as int) =~= eb + tail);
            assert(rest(r, uvar_ext(len).len() as int).subrange(0, len as int) =~= eb);
            encode_utf8_valid_utf8(c);
            encode_utf8_decode_utf8(c);
        },
        _ => {},
    }
}

#[verifier::rlimit(100)]
#[verifier::spinoff_prover]
proof fn lemma_rt_bytes(v: ValueV, tail: Seq<u8>)
    requires
        v is Bytes,
        value_wf(v),
    ensures
        parse_value(enc_value(v) + tail) == Ok::<(ValueV, nat), DecodeError>(
            (v, enc_value(v).len()),
        ),
    decreases v, 0nat,
{
    let s = enc_value(v) + tail;
    let r = rest(s, 1);
    lemma_unfold_value(s);
    lemma_unfold_tagged(s[0] / 16, s[0] % 16, r);
    match v {
        ValueV::Bytes(b) => {
            let len = b.len() as u64;
            lemma_head(5, len, b + tail);
            assert(s =~= enc_head(5, len) + (b + tail));
            assert(rest(r, uvar_ext(len).len() as int) =~= b + tail);
            assert(rest(r, uvar_ext(len).len() as int).subrange(0, len as int) =~= b);
        },
        _ => {},
    }
}

#[verifier::rlimit(100)]
#[verifier::spinoff_prover]
proof fn lemma_rt_option(v: ValueV, tail: Seq<u8>)
    requires
        v is Option,
        value_wf(v),
    ensures
        parse_value(enc_value(v) + tail) == Ok::<(ValueV, nat), DecodeError>(
            (v, enc_value(v).len()),
        ),
    decreases v, 0nat,
{
    let s = enc_value(v) + tail;
    let r = rest(s, 1);
    lemma_unfold_value(s);
    lemma_unfold_tagged(s[0] / 16, s[0] % 16, r);
    lemma_unfold_inline(s[0] % 16, r);
    match v {
        ValueV::Option(t, o) => {
            match o {
                Some(x) => {
                    assert(r =~= enc_type(t) + (enc_value(*x) + tail));
                    lemma_type_round_trip(t, enc_value(*x) + tail);
                    assert(rest(r, enc_type(t).len() as int) =~= enc_value(*x) + tail);
                    lemma_value_round_trip(*x, tail);
                },
                None => {
                    assert(r =~= enc_type(t) + tail);
                    lemma_type_round_trip(t, tail);
                },
            }
        },
        _ => {},
    }
}

#[verifier::rlimit(100)]
#[verifier::spinoff_prover]
proof fn lemma_rt_list(v: ValueV, tail: Seq<u8>)
    requires
        v is List,
        value_wf(v),
    ensures
        parse_value(enc_value(v) + tail) == Ok::<(ValueV, nat), DecodeError>(
            (v, enc_value(v).len()),
        ),
    decreases v, 0nat,
{
    let s = enc_value(v) + tail;
    let r = rest(s, 1);
    lemma_unfold_value(s);
    lemma_unfold_tagged(s[0] / 16, s[0] % 16, r);
    lemma_unfold_seq(HTag::List, s[0] % 16, r);
    match v {
        ValueV::List(t, vs) => {
            let c = vs.len() as u64;
            let body = enc_type(t) + (enc_values(vs) + tail);
            lemma_head(6, c, body);
            assert(s =~= enc_head(6, c) + body);
            let n = uvar_ext(c).len() as int;
            assert(rest(r, n) =~= body);
            lemma_type_round_trip(t, enc_values(vs) + tail);
            assert(rest(rest(r, n), enc_type(t).len() as int) =~= enc_values(vs) + tail);
            lemma_values_round_trip(vs, tail);
        },
        _ => {},
    }
}

#[verifier::rlimit(100)]
#[verifier::spinoff_prover]
proof fn lemma_rt_dict(v: ValueV, tail: Seq<u8>)
    requires
        v is Dict,
        value_wf(v),
    ensures
        parse_value(enc_value(v) + tail) == Ok::<(ValueV, nat), DecodeError>(
            (v, enc_value(v).len()),
        ),
    decreases v, 0nat,
{
    let s = enc_value(v) + tail;
    let r = rest(s, 1);
    lemma_unfold_value(s);
    lemma_unfold_tagged(s[0] / 16, s[0] % 16, r);
    lemma_unfold_seq(HTag::Dict, s[0] % 16, r);
    match v {
        ValueV::Dict(tk, tv, ps) => {
            let c = ps.len() as u64;
            let body = enc_type(tk) + (enc_type(tv) + (enc_pairs(ps) + tail));
            lemma_head(7, c, body);
            assert(s =~= enc_head(7, c) + body);
            let n = uvar_ext(c).len();
            let r1 = rest(r, n as int);
            assert(r1 =~= body);
            lemma_type_round_trip(tk, enc_type(tv) + (enc_pairs(ps) + tail));
            let n2 = enc_type(tk).len();
            let r2 = rest(r1, n2 as int);
            assert(r2 =~= enc_type(tv) + (enc_pairs(ps) + tail));
            lemma_type_round_trip(tv, enc_pairs(ps) + tail);
            let n3 = enc_type(tv).len();
            let r3 = rest(r2, n3 as int);
            assert(r3 =~= enc_pairs(ps) + tail);
            lemma_pairs_round_trip(ps, tail);
            lemma_unfold_dict_rest(tk, c, r2);
            assert(parse_dict_rest(tk, c, r2) == Ok::<(ValueV, nat), DecodeError>(
                (v, n3 + enc_pairs(ps).len()),
            ));
            assert(enc_value(v).len() == 1 + n + n2 + n3 + enc_pairs(ps).len());
        },
        _ => {},
    }
}

#[verifier::rlimit(100)]
#[verifier::spinoff_prover]
proof fn lemma_rt_tuple(v: ValueV, tail: Seq<u8>)
    requires
        v is Tuple,
        value_wf(v),
    ensures
        parse_value(enc_value(v) + tail) == Ok::<(ValueV, nat), DecodeError>(
            (v, enc_value(v).len()),
        ),
    decreases v, 0nat,
{
    let s = enc_value(v) + tail;
    let r = rest(s, 1);
    lemma_unfold_value(s);
    lemma_unfold_tagged(s[0] / 16, s[0] % 16, r);
    lemma_unfold_seq(HTag::Tuple, s[0] % 16, r);
    match v {
        ValueV::Tuple(vs) => {
            let c = vs.len() as u64;
            let body = enc_values(vs) + tail;
            lemma_head(8, c, body);
            assert(s =~= enc_head(8, c) + body);
            let n = uvar_ext(c).len() as int;
            assert(rest(r, n) =~= body);
            lemma_values_round_trip(vs, tail);
        },
        _ => {},
    }
}

#[verifier::rlimit(100)]
#[verifier::spinoff_prover]
proof fn lemma_rt_alias(v: ValueV, tail: Seq<u8>)
    requires
        v is Alias,
        value_wf(v),
    ensures
        parse_value(enc_value(v) + tail) == Ok::<(ValueV, nat), DecodeError>(
            (v, enc_value(v).len()),
        ),
    decreases v, 0nat,
{
    let s = enc_value(v) + tail;
    let r = rest(s, 1);
    lemma_unfold_value(s);
    lemma_unfold_tagged(s[0] / 16, s[0] % 16, r);
    lemma_unfold_inline(s[0] % 16, r);
    match v {
        ValueV::Alias(p, x) => {
            assert(r =~= enc_typeptr(p) + (enc_value(*x) + tail));
            lemma_typeptr(p, enc_value(*x) + tail);
            assert(rest(r, enc_typeptr(p).len() as int) =~= enc_value(*x) + tail);
            lemma_value_round_trip(*x, tail);
        },
        _ => {},
    }
}

#[verifier::rlimit(100)]
#[verifier::spinoff_prover]
proof fn lemma_rt_c_enum(v: ValueV, tail: Seq<u8>)
    requires
        v is CEnum,
        value_wf(v),
    ensures
        parse_value(enc_value(v) + tail) == Ok::<(ValueV, nat), DecodeError>(
            (v, enc_value(v).len()),
        ),
    decreases v, 0nat,
{
    let s = enc_value(v) + tail;
    let r = rest(s, 1);
    lemma_unfold_value(s);
    lemma_unfold_tagged(s[0] / 16, s[0] % 16, r);
    lemma_unfold_variant(HTag::CEnum, s[0] % 16, r);
    match v {
        ValueV::CEnum(p, e) => {
            let body = enc_typeptr(p) + tail;
            lemma_head(9, e, body);
            assert(s =~= enc_head(9, e) + body);
            let n = uvar_ext(e).len() as int;
            assert(rest(r, n) =~= body);
            lemma_typeptr(p, tail);
        },
        _ => {},
    }
}

#[verifier::rlimit(100)]
#[verifier::spinoff_prover]
proof fn lemma_rt_enum(v: ValueV, tail: Seq<u8>)
    requires
        v is Enum,
        value_wf(v),
    ensures
        parse_value(enc_value(v) + tail) == Ok::<(ValueV, nat), DecodeError>(
            (v, enc_value(v).len()),
        ),
    decreases v, 0nat,
{
    let s = enc_value(v) + tail;
    let r = rest(s, 1);
    lemma_unfold_value(s);
    lemma_unfold_tagged(s[0] / 16, s[0] % 16, r);
    lemma_unfold_variant(HTag::Enum, s[0] % 16, r);
    match v {
        ValueV::Enum(p, e, x) => {
            let body = enc_typeptr(p) + (enc_value(*x) + tail);
            lemma_head(10, e, body);
            assert(s =~= enc_head(10, e) + body);
            let n = uvar_ext(e).len() as int;
            assert(rest(r, n) =~= body);
            lemma_typeptr(p, enc_value(*x) + tail);
            assert(rest(rest(r, n), enc_typeptr(p).len() as int) =~= enc_value(*x) + tail);
            lemma_value_round_trip(*x, tail);
        },
        _ => {},
    }
}

#[verifier::rlimit(100)]
#[verifier::spinoff_prover]
proof fn lemma_rt_struct(v: ValueV, tail: Seq<u8>)
    requires
        v is Struct,
        value_wf(v),
    ensures
        parse_value(enc_value(v) + tail) == Ok::<(ValueV, nat), DecodeError>(
            (v, enc_value(v).len()),
        ),
    decreases v, 0nat,
{
    let s = enc_value(v) + tail;
    let r = rest(s, 1);
    lemma_unfold_value(s);
    lemma_unfold_tagged(s[0] / 16, s[0] % 16, r);
    lemma_unfold_seq(HTag::Struct, s[0] % 16, r);
    match v {
        ValueV::Struct(p, vs) => {
            let c = vs.len() as u64;
            let body = enc_typeptr(p) + (enc_values(vs) + tail);
            lemma_head(11, c, body);
            assert(s =~= enc_head(11, c) + body);
            let n = uvar_ext(c).len() as int;
            assert(rest(r, n) =~= body);
            lemma_typeptr(p, enc_values(vs) + tail);
            assert(rest(rest(r, n), enc_typeptr(p).len() as int) =~= enc_values(vs) + tail);
            lemma_values_round_trip(vs, tail);
        },
        _ => {},
    }
}

#[verifier::rlimit(100)]
#[verifier::spinoff_prover]
proof fn lemma_rt_type(v: ValueV, tail: Seq<u8>)
    requires
        v is Type,
        value_wf(v),
    ensures
        parse_value(enc_value(v) + tail) == Ok::<(ValueV, nat), DecodeError>(
            (v, enc_value(v).len()),
        ),
    decreases v, 0nat,
{
    let s = enc_value(v) + tail;
    let r = rest(s, 1);
    lemma_unfold_value(s);
    lemma_unfold_tagged(s[0] / 16, s[0] % 16, r);
    lemma_unfold_inline(s[0] % 16, r);
    match v {
        ValueV::Type(t) => {
            assert(r =~= enc_type(t) + tail);
            lemma_type_round_trip(t, tail);
        },
        _ => {},
    }
}

#[verifier::rlimit(100)]
#[verifier::spinoff_prover]
proof fn lemma_rt_type_ptr(v: ValueV, tail: Seq<u8>)
    requires
        v is TypePtr,
        value_wf(v),
    ensures
        parse_value(enc_value(v) + tail) == Ok::<(ValueV, nat), DecodeError>(
            (v, enc_value(v).len()),
        ),
    decreases v, 0nat,
{
    let s = enc_value(v) + tail;
    let r = rest(s, 1);
    lemma_unfold_value(s);
    lemma_unfold_tagged(s[0] / 16, s[0] % 16, r);
    lemma_unfold_inline(s[0] % 16, r);
    match v {
        ValueV::TypePtr(p) => {
            assert(r =~= enc_typeptr(p) + tail);
            lemma_typeptr(p, tail);
        },
        _ => {},
    }
}

#[verifier::rlimit(100)]
#[verifier::spinoff_prover]
proof fn lemma_rt_object_ptr(v: ValueV, tail: Seq<u8>)
    requires
        v is ObjectPtr,
        value_wf(v),
    ensures
        parse_value(enc_value(v) + tail) == Ok::<(ValueV, nat), DecodeError>(
            (v, enc_value(v).len()),
        ),
    decreases v, 0nat,
{
    let s = enc_value(v) + tail;
    let r = rest(s, 1);
    lemma_unfold_value(s);
    lemma_unfold_tagged(s[0] / 16, s[0] % 16, r);
    lemma_unfold_inline(s[0] % 16, r);
    match v {
        ValueV::ObjectPtr(o) => {
            assert(r =~= enc_objectptr(o) + tail);
            lemma_objectptr(o, tail);
        },
        _ => {},
    }
}

#[verifier::rlimit(100)]
#[verifier::spinoff_prover]
proof fn lemma_rt_timestamp(v: ValueV, tail: Seq<u8>)
    requires
        v is Timestamp,
        value_wf(v),
    ensures
        parse_value(enc_value(v) + tail) == Ok::<(ValueV, nat), DecodeError>(
            (v, enc_value(v).len()),
        ),
    decreases v, 0nat,
{
    let s = enc_value(v) + tail;
    let r = rest(s, 1);
    lemma_unfold_value(s);
    lemma_unfold_tagged(s[0] / 16, s[0] % 16, r);
    lemma_unfold_inline(s[0] % 16, r);
    match v {
        ValueV::Timestamp(t) => {
            assert(r =~= enc_timestamp(t) + tail);
            lemma_timestamp(t, tail);
        },
        _ => {},
    }
}

#[verifier::rlimit(100)]
#[verifier::spinoff_prover]
proof fn lemma_rt_u_int16(v: ValueV, tail: Seq<u8>)
    requires
        v is UInt16,
        value_wf(v),
    ensures
        parse_value(enc_value(v) + tail) == Ok::<(ValueV, nat), DecodeError>(
            (v, enc_value(v).len()),
        ),
    decreases v, 0nat,
{
    let s = enc_value(v) + tail;
    let r = rest(s, 1);
    lemma_unfold_value(s);
    lemma_unfold_tagged(s[0] / 16, s[0] % 16, r);
    lemma_unfold_inline(s[0] % 16, r);
    match v {
        ValueV::UInt16(u) => {
            lemma_be16(u);
            assert(from_be16(r) == from_be16(be16(u)));
        },
        _ => {},
    }
}

#[verifier::rlimit(100)]
#[verifier::spinoff_prover]
proof fn lemma_rt_u_int32(v: ValueV, tail: Seq<u8>)
    requires
        v is UInt32,
        value_wf(v),
    ensures
        parse_value(enc_value(v) + tail) == Ok::<(ValueV, nat), DecodeError>(
            (v, enc_value(v).len()),
        ),
    decreases v, 0nat,
{
    let s = enc_value(v) + tail;
    let r = rest(s, 1);
    lemma_unfold_value(s);
    lemma_unfold_tagged(s[0] / 16, s[0] % 16, r);
    lemma_unfold_inline(s[0] % 16, r);
    match v {
        ValueV::UInt32(u) => {
            lemma_be32(u);
            assert(from_be32(r) == from_be32(be32(u)));
        },
        _ => {},
    }
}

/// Values written one after the other read back in order.
#[verifier::rlimit(100)]
#[verifier::spinoff_prover]
pub proof fn lemma_values_round_trip(vs: Seq<ValueV>, tail: Seq<u8>)
    requires
        forall|i: int| 0 <= i < vs.len() ==> value_wf(vs[i]),
    ensures
        parse_values(enc_values(vs) + tail, vs.len()) == Ok::<(Seq<ValueV>, nat), DecodeError>(
            (vs, enc_values(vs).len()),
        ),
    decreases vs,
{
    lemma_unfold_values(enc_values(vs) + tail, vs.len());
    if vs.len() > 0 {
        let n = vs.len() - 1;
        let front = vs.subrange(0, n);
        let last = vs[n];
        assert(enc_values(vs) + tail =~= enc_values(front) + (enc_value(last) + tail));
        lemma_values_round_trip(front, enc_value(last) + tail);
        assert(rest(enc_values(vs) + tail, enc_values(front).len() as int) =~= enc_value(last)
            + tail);
        lemma_value_round_trip(last, tail);
        assert(front.push(last) =~= vs);
    } else {
        assert(vs =~= seq![]);
    }
}

proof fn lemma_flatten_push(front: Seq<(ValueV, ValueV)>, k: ValueV, v: ValueV)
    ensures
        flatten(front.push((k, v))) == flatten(front).push(k).push(v),
{
    let a = flatten(front.push((k, v)));
    let b = flatten(front).push(k).push(v);
    assert forall|i: int| 0 <= i < a.len() implies a[i] == b[i] by {
        if i < 2 * front.len() {
            assert(i / 2 < front.len()) by (nonlinear_arith)
                requires
                    0 <= i < 2 * front.len(),
            ;
        }
    }
    assert(a =~= b);
}

proof fn lemma_pairs_step(front: Seq<(ValueV, ValueV)>, k: ValueV, v: ValueV, tail: Seq<u8>)
    requires
        parse_values(enc_pairs(front) + (enc_value(k) + (enc_value(v) + tail)), 2 * front.len())
            == Ok::<(Seq<ValueV>, nat), DecodeError>((flatten(front), enc_pairs(front).len())),
        parse_value(enc_value(k) + (enc_value(v) + tail)) == Ok::<(ValueV, nat), DecodeError>(
            (k, enc_value(k).len()),
        ),
        parse_value(enc_value(v) + tail) == Ok::<(ValueV, nat), DecodeError>(
            (v, enc_value(v).len()),
        ),
    ensures
        parse_values(enc_pairs(front.push((k, v))) + tail, 2 * front.len() + 2) == Ok::<
            (Seq<ValueV>, nat),
            DecodeError,
        >((flatten(front).push(k).push(v), enc_pairs(front.push((k, v))).len())),
{
    let ps = front.push((k, v));
    let s = enc_pairs(ps) + tail;
    assert(ps.subrange(0, front.len() as int) =~= front);
    assert(s =~= enc_pairs(front) + (enc_value(k) + (enc_value(v) + tail)));
    let m = enc_pairs(front).len() as int;
    assert(rest(s, m) =~= enc_value(k) + (enc_value(v) + tail));
    let m2 = enc_value(k).len() as int;
    assert(rest(s, m + m2) =~= enc_value(v) + tail);
    lemma_unfold_values(s, (2 * front.len() + 1) as nat);
    lemma_unfold_values(s, (2 * front.len() + 2) as nat);
}

/// Key-value pairs written one after the other read back in order, as their
/// keys and values in turn.
#[verifier::rlimit(100)]
#[verifier::spinoff_prover]
pub proof fn lemma_pairs_round_trip(ps: Seq<(ValueV, ValueV)>, tail: Seq<u8>)
    requires
        forall|i: int| 0 <= i < ps.len() ==> value_wf(ps[i].0) && value_wf(ps[i].1),
    ensures
        parse_values(enc_pairs(ps) + tail, 2 * ps.len()) == Ok::<(Seq<ValueV>, nat), DecodeError>(
            (flatten(ps), enc_pairs(ps).len()),
        ),
        pair_up(flatten(ps)) == ps,
    decreases ps,
{
    lemma_pair_up_flatten(ps);
    let s = enc_pairs(ps) + tail;
    if ps.len() > 0 {
        let n = ps.len() - 1;
        let front = ps.subrange(0, n);
        let k = ps[n].0;
        let v = ps[n].1;
        assert(s =~= enc_pairs(front) + (enc_value(k) + (enc_value(v) + tail)));
        lemma_pairs_round_trip(front, enc_value(k) + (enc_value(v) + tail));
        lemma_value_round_trip(k, enc_value(v) + tail);
        lemma_value_round_trip(v, tail);
        lemma_pairs_step(front, k, v, tail);
        assert(ps =~= front.push((k, v)));
        lemma_flatten_push(front, k, v);
    } else {
        lemma_unfold_values(s, 0);
        assert(flatten(ps) =~= seq![]);
    }
}

/// Decoding undoes encoding: every well-formed value decodes from its wire
/// form, taking all of it.
pub proof fn lemma_round_trip(v: ValueV)
    requires
        value_wf(v),
    ensures
        decode_bytes(enc_value(v)) == Ok::<ValueV, DecodeError>(v),
{
    lemma_value_round_trip(v, seq![]);
    assert(enc_value(v) + seq![] =~= enc_value(v));
}

/// A float's bit pattern survives encoding and decoding, and its wire form
/// is the tag byte and the big-endian bytes left once the trailing zero bytes
/// are dropped.
pub proof fn lemma_float_truncation(f: u64)
    ensures
        decode_bytes(enc_value(ValueV::Float(f))) == Ok::<ValueV, DecodeError>(ValueV::Float(f)),
        enc_value(ValueV::Float(f)).len() == 1 + 8 - trailing_zero_bytes(be64(f)),
{
    lemma_float(f, seq![]);
    lemma_round_trip(ValueV::Float(f));
}

/// The number of bytes that the inlined integer scheme takes for `u`,
/// tag byte included.
pub open spec fn head_len(u: u64) -> nat {
    if u < 12 {
        1
    } else if u <= 0xff {
        2
    } else if u <= 0xffff {
        3
    } else if u <= 0xffff_ffff {
        5
    } else {
        9
    }
}

/// Integers below 12 fit in the tag byte; larger ones take the smallest of
/// 1, 2, 4 or 8 extra bytes. This holds of unsigned integers, of signed ones
/// after zigzag, and of the lengths of strings, byte strings and sequences.
pub proof fn lemma_inline_boundary(u: u64, i: i64, b: Seq<u8>)
    requires
        b.len() <= u64::MAX,
    ensures
        enc_value(ValueV::UInt(u)).len() == head_len(u),
        enc_value(ValueV::Int(i)).len() == head_len(zigzag(i)),
        enc_value(ValueV::Bytes(b)).len() == head_len(b.len() as u64) + b.len(),
{
    lemma_be16(0);
    lemma_be32(0);
    lemma_be64(0);
}

/// A registered code travels as its two big-endian bytes and a hash pointer
/// as 0xFF and its seven bytes; either reads back as itself.
pub proof fn lemma_typeptr_forms(p: TypePtr)
    requires
        p.wf(),
    ensures
        p matches TypePtr::Std(sp) ==> enc_typeptr(p) == be16(sp.0) && enc_typeptr(p).len() == 2,
        p matches TypePtr::Hash(h) ==> enc_typeptr(p) == seq![0xffu8] + h@ && enc_typeptr(p).len()
            == 8,
        parse_typeptr(enc_typeptr(p)) == Ok::<(TypePtr, nat), DecodeError>(
            (p, enc_typeptr(p).len()),
        ),
        decode_bytes(enc_value(ValueV::TypePtr(p))) == Ok::<ValueV, DecodeError>(ValueV::TypePtr(p)),
{
    lemma_typeptr(p, seq![]);
    assert(enc_typeptr(p) + seq![] =~= enc_typeptr(p));
    lemma_round_trip(ValueV::TypePtr(p));
}

/// Encoding is a function of the value alone: equal values give equal bytes.
pub proof fn lemma_encode_deterministic(v: ValueV, w: ValueV)
    requires
        v == w,
    ensures
        enc_value(v) == enc_value(w),
{
}

} // verus!
