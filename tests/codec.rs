use zeon::meta::{ObjectPtr, Timestamp, TypePtr};
use zeon::types::{Type, Value};
use zeon::wire::DecodeError;

fn bytes(s: &str) -> Vec<u8> {
    let compact: String = s.chars().filter(|c| !c.is_whitespace()).collect();
    hex::decode(compact).unwrap()
}

fn hash7(s: &str) -> [u8; 7] {
    let b = bytes(s);
    let mut a = [0u8; 7];
    a.copy_from_slice(&b);
    a
}

fn check_case(v: Value, exp: &[u8]) {
    let buf = v.encode();
    assert_eq!(&buf[..], exp);
    let v2 = Value::decode(&buf).unwrap();
    assert_eq!(v, v2);
}

fn map_case() -> Value {
    Value::Dict(
        Type::UInt,
        Type::List(Box::new(Type::String)),
        vec![
            (
                Value::UInt(123),
                Value::List(
                    Type::String,
                    vec![Value::String("hello".to_owned()), Value::String("goodbye".to_owned())],
                ),
            ),
            (
                Value::UInt(999999),
                Value::List(
                    Type::String,
                    vec![
                        Value::String("thanks".to_owned()),
                        Value::String("how are you".to_owned()),
                    ],
                ),
            ),
        ],
    )
}

fn tuple_case() -> Value {
    Value::Tuple(vec![
        Value::Unit,
        Value::Bool(false),
        Value::Int(-7777777),
        Value::UInt(24393),
        Value::Float(50.0_f64.to_bits()),
        Value::String("Berylosft".to_owned()),
        Value::Bytes(b"(\x00)".to_vec()),
        Value::Option(Type::String, Box::new(None)),
        Value::Option(Type::Bool, Box::new(Some(Value::Bool(true)))),
        Value::Alias(TypePtr::Hash(hash7("fedcba98765432")), Box::new(Value::Bytes(b"\xff".to_vec()))),
        Value::CEnum(TypePtr::from_u16(0x5f50), 11),
        Value::Enum(TypePtr::from_u16(0x5f49), 5, Box::new(Value::Int(5))),
        Value::Enum(TypePtr::from_u16(0x00aa), 163, Box::new(Value::UInt(12))),
        Value::Type(Type::List(Box::new(Type::List(Box::new(Type::Struct(TypePtr::from_u16(0xfe50))))))),
        Value::TypePtr(TypePtr::Hash(hash7("fedcba98765432"))),
        Value::ObjectPtr(ObjectPtr { ot: 0x0123, oid: 0x0123456789abcdef }),
        Value::Timestamp(Timestamp { secs: 0x000000002920d7f6, nanos: 0x3161fcd4 }),
        Value::Option(
            Type::Tuple(vec![Type::Int, Type::Unit, Type::Unknown]),
            Box::new(Some(Value::Tuple(vec![Value::Int(9), Value::Unit, Value::Bool(true)]))),
        ),
    ])
}

#[test]
fn tests_test() {
    check_case(
        map_case(),
        &bytes(
            "
        72 04 0906
        2c 7b 62 06 45 68656c6c6f 47 676f6f64627965
        2e 000f423f 62 06 46 7468616e6b73 4b 686f772061726520796f75
        ",
        ),
    );
    check_case(
        tuple_case(),
        &bytes(
            "
        8c 12
        00
        01
        1e 00ed5be1
        2d 5f49
        32 4049
        49 426572796c6f736674
        53 280029
        03 06
        04 02 02
        05 ff fedcba98765432 51 ff
        9b 5f50
        a5 5f49 1a
        ac a3 00aa 2c 0c
        06 09 09 0f fe50
        07 ff fedcba98765432
        08 0123 0123456789abcdef
        09 000000002920d7f6 3161fcd4
        04  0b 03 03 01 00  83 1c 12 00 02
        ",
        ),
    );
}

#[test]
fn encoding_is_deterministic() {
    assert_eq!(tuple_case().encode(), tuple_case().encode());
    assert_eq!(map_case().encode(), map_case().encode());
}

#[test]
fn float_truncation() {
    assert_eq!(Value::Float(50.0_f64.to_bits()).encode(), vec![0x32, 0x40, 0x49]);
    assert_eq!(Value::Float(0).encode(), vec![0x30]);
    let all: u64 = 0x0102030405060708;
    let enc = Value::Float(all).encode();
    assert_eq!(enc.len(), 9);
    assert_eq!(enc[0], 0x38);
    for f in [1.5_f64, -0.25, 3.141592653589793, 1e300, f64::MIN_POSITIVE] {
        let enc = Value::Float(f.to_bits()).encode();
        let k = f.to_bits().to_be_bytes().iter().rev().take_while(|b| **b == 0).count();
        assert_eq!(enc.len(), 1 + 8 - k);
        assert_eq!(Value::decode(&enc).unwrap(), Value::Float(f.to_bits()));
    }
}

#[test]
fn inline_boundaries() {
    for u in 0..12u64 {
        assert_eq!(Value::UInt(u).encode(), vec![0x20 | u as u8]);
    }
    assert_eq!(Value::UInt(12).encode(), vec![0x2c, 12]);
    assert_eq!(Value::UInt(255).encode().len(), 2);
    assert_eq!(Value::UInt(256).encode(), vec![0x2d, 0x01, 0x00]);
    assert_eq!(Value::UInt(65535).encode().len(), 3);
    assert_eq!(Value::UInt(65536).encode(), vec![0x2e, 0x00, 0x01, 0x00, 0x00]);
    assert_eq!(Value::UInt(4294967295).encode().len(), 5);
    assert_eq!(
        Value::UInt(4294967296).encode(),
        vec![0x2f, 0x00, 0x00, 0x00, 0x01, 0x00, 0x00, 0x00, 0x00]
    );
    assert_eq!(Value::Int(5).encode(), vec![0x1a]);
    assert_eq!(Value::Int(-6).encode(), vec![0x1b]);
    assert_eq!(Value::Int(6).encode(), vec![0x1c, 12]);
    assert_eq!(Value::Bytes(vec![7; 11]).encode().len(), 12);
    assert_eq!(Value::Bytes(vec![7; 12]).encode().len(), 14);
    assert_eq!(Value::Tuple(vec![]).encode(), vec![0x80]);
    for u in [0u64, 11, 12, 255, 256, 65535, 65536, 4294967295, 4294967296, u64::MAX] {
        assert_eq!(Value::decode(&Value::UInt(u).encode()).unwrap(), Value::UInt(u));
    }
    for i in [0i64, -1, 1, -6, 6, i64::MIN, i64::MAX] {
        assert_eq!(Value::decode(&Value::Int(i).encode()).unwrap(), Value::Int(i));
    }
}

#[test]
fn typeptr_forms() {
    let std = Value::TypePtr(TypePtr::from_u16(0x1234)).encode();
    assert_eq!(std, vec![0x07, 0x12, 0x34]);
    let h = Value::TypePtr(TypePtr::Hash(hash7("01020304050607"))).encode();
    assert_eq!(h, vec![0x07, 0xff, 1, 2, 3, 4, 5, 6, 7]);
    assert_eq!(Value::decode(&std).unwrap(), Value::TypePtr(TypePtr::from_u16(0x1234)));
    assert_eq!(Value::decode(&h).unwrap(), Value::TypePtr(TypePtr::Hash(hash7("01020304050607"))));
    assert_eq!(
        Value::decode(&[0x07, 0xfe, 0xff]).unwrap(),
        Value::TypePtr(TypePtr::from_u16(0xfeff))
    );
}

#[test]
fn decode_errors() {
    assert_eq!(Value::decode(&[]), Err(DecodeError::TooShort));
    assert_eq!(Value::decode(&[0x2c]), Err(DecodeError::TooShort));
    assert_eq!(Value::decode(&[0x00, 0x00]), Err(DecodeError::TooLong(1)));
    assert_eq!(Value::decode(&[0x42, 0xff, 0xfe]), Err(DecodeError::Utf8));
    assert_eq!(Value::decode(&[0x06, 0x17]), Err(DecodeError::Tag(0x17)));
    assert_eq!(Value::decode(&[0xc0]), Err(DecodeError::HTag(0xc)));
    assert_eq!(Value::decode(&[0x0d]), Err(DecodeError::LTag(0xd)));
    assert_eq!(Value::decode(&[0x39]), Err(DecodeError::FloatL4(9)));
    assert_eq!(Value::decode(&[0x62, 0x04, 0x21]), Err(DecodeError::TooShort));
    assert_eq!(Value::decode(&[0x07, 0xff, 1, 2]), Err(DecodeError::TooShort));
}

#[test]
fn nested_round_trip() {
    let v = Value::Struct(
        TypePtr::from_u16(9),
        vec![
            Value::Dict(Type::Bytes, Type::Unit, vec![]),
            Value::List(
                Type::Option(Box::new(Type::Int)),
                vec![Value::Option(Type::Int, Box::new(Some(Value::Int(-300))))],
            ),
            Value::UInt8(7),
            Value::UInt16(0xbeef),
            Value::UInt32(0xdeadbeef),
            Value::String("ünïcödé".to_owned()),
        ],
    );
    let buf = v.encode();
    assert_eq!(Value::decode(&buf).unwrap(), v);
}

#[test]
fn well_formedness_checks() {
    assert!(zeon::encode::value_is_wf(&tuple_case()));
    let wide = Type::Tuple((0..256).map(|_| Type::Unit).collect());
    assert!(!zeon::encode::type_is_wf(&wide));
    assert!(!zeon::encode::value_is_wf(&Value::Type(wide)));
    let bad_ptr = Value::TypePtr(TypePtr::from_u16_unchecked(0xff01));
    assert!(!zeon::encode::value_is_wf(&bad_ptr));
    let narrow = Type::Tuple((0..255).map(|_| Type::Unit).collect());
    let v = Value::Type(narrow);
    assert!(zeon::encode::value_is_wf(&v));
    assert_eq!(Value::decode(&v.encode()).unwrap(), v);
}

#[test]
fn value_accessors() {
    assert_eq!(Value::UInt(3).into_uint(), Some(3));
    assert_eq!(Value::Int(3).into_uint(), None);
    assert_eq!(Value::String("x".to_owned()).into_string(), Some("x".to_owned()));
    assert_eq!(Value::Tuple(vec![Value::Unit]).into_tuple(), Some(vec![Value::Unit]));
    assert_eq!(Value::List(Type::Unit, vec![]).as_htag(), zeon::types::HTag::List);
    assert_eq!(Value::Unit.as_tag(), zeon::types::Tag::Unit);
    assert_eq!(Type::Dict(Box::new(Type::Unit), Box::new(Type::Unit)).as_tag(), zeon::types::Tag::Dict);
    assert_eq!(zeon::types::Tag::from_u8(0x16), Some(zeon::types::Tag::UInt32));
    assert_eq!(zeon::types::Tag::from_u8(0x17), None);
}

#[test]
fn value_types() {
    let v = Value::Tuple(vec![
        Value::Int(1),
        Value::List(Type::Bool, vec![]),
        Value::Tuple(vec![Value::Unit]),
        Value::CEnum(TypePtr::from_u16(3), 1),
    ]);
    assert_eq!(
        v.as_type(),
        Type::Tuple(vec![
            Type::Int,
            Type::List(Box::new(Type::Bool)),
            Type::Tuple(vec![Type::Unit]),
            Type::CEnum(TypePtr::from_u16(3)),
        ])
    );
    let t = Type::Dict(Box::new(Type::Bytes), Box::new(Type::Tuple(vec![Type::Float])));
    assert_eq!(zeon::access::clone_type(&t), t);
}
