use zeon::check::{SimpleName, UnixTs};
use zeon::schema::CommitAttrType;
use zeon::types::Value;
use zeon::meta::{CommitIndexItem, CommitPtr, ObjectPtr, Timestamp, TypePtr, COMMIT_PTR_SIZE, INDEX_ITEM_SIZE};

fn bytes(s: &str) -> Vec<u8> {
    let compact: String = s.chars().filter(|c| !c.is_whitespace()).collect();
    hex::decode(compact).unwrap()
}

fn empty_hash() -> [u8; 32] {
    let b = bytes("46b9dd2b0ba88d13233b3feb743eeb243fcd52ea62b81b82b50c27646ed5762f");
    let mut a = [0u8; 32];
    a.copy_from_slice(&b);
    a
}

#[test]
fn casting_test() {
    assert_eq!(COMMIT_PTR_SIZE, 24);
    assert_eq!(INDEX_ITEM_SIZE, 64);
    let ptr = CommitPtr {
        ts: Timestamp { secs: 0x2937b5bf, nanos: 0x05b242d8 },
        opr: ObjectPtr { ot: 0x1234, oid: 0xabcdef00 },
        seq: 0x5678,
    };
    let index = CommitIndexItem { ptr, len: 0, hash: empty_hash() };
    let buf = ptr.to_bytes();
    assert_eq!(buf, bytes("000000002937b5bf05b242d8123400000000abcdef005678"));
    assert_eq!(CommitPtr::from_bytes(&buf), ptr);
    let buf = index.to_bytes();
    assert_eq!(
        buf,
        bytes(
            "000000002937b5bf05b242d8123400000000abcdef005678
            0000000000000000
            46b9dd2b0ba88d13233b3feb743eeb243fcd52ea62b81b82b50c27646ed5762f"
        )
    );
    assert_eq!(CommitIndexItem::from_bytes(&buf), index);
}

#[test]
fn type_ptr_from_path_hashes() {
    let p = TypePtr::from_path("");
    assert_eq!(p, TypePtr::Hash([0x46, 0xb9, 0xdd, 0x2b, 0x0b, 0xa8, 0x8d]));
    assert_ne!(TypePtr::from_path("std:meta:commit"), p);
}

#[test]
fn type_ptr_accessors() {
    let p = TypePtr::from_u16(0x0102);
    assert_eq!(p.as_std_inner(), Some(0x0102));
    assert_eq!(p.as_hash(), None);
    assert!(zeon::meta::check_stdptr(0xfe00));
    assert!(!zeon::meta::check_stdptr(0xff00));
}

#[test]
fn timestamps_from_unix() {
    let t = Timestamp::from_unix_ms(978307200123);
    assert_eq!(t, Timestamp { secs: 0, nanos: 123_000_000 });
    assert_eq!(t.to_unix_ms(), 978307200123);
    let t = Timestamp::from_unix_ms(-1);
    assert_eq!(t, Timestamp { secs: -1 - 978307200, nanos: 999_000_000 });
    assert_eq!(t.to_unix_ms(), -1);
    assert!(Timestamp::now().is_some());
    assert_eq!(Timestamp::from_unix_clock(978307201, 5), Some(Timestamp { secs: 1, nanos: 5 }));
    assert_eq!(Timestamp::from_unix_clock(u64::MAX, 0), None);
}

#[test]
fn nanosecond_counts() {
    let t = Timestamp { secs: 3, nanos: 5 };
    assert_eq!(t.to_nanos(), 3_000_000_005);
    assert_eq!(Timestamp::from_nanos(3_000_000_005), t);
    assert_eq!(Timestamp::from_nanos(-1), Timestamp { secs: -1, nanos: 999_999_999 });
    assert_eq!(Timestamp::from_nanos(-1).to_nanos(), -1);
}

#[test]
fn small_schema_types() {
    assert_eq!(UnixTs(9).serialize(), Value::UInt(9));
    assert_eq!(UnixTs::deserialize(Value::UInt(9)), Some(UnixTs(9)));
    assert_eq!(CommitAttrType::IterSet.serialize(), Value::CEnum(TypePtr::from_u16(3), 3));
    assert_eq!(CommitAttrType::deserialize(Value::CEnum(TypePtr::from_u16(3), 4)), Some(CommitAttrType::Complex));
    assert_eq!(CommitAttrType::deserialize(Value::CEnum(TypePtr::from_u16(3), 5)), None);
    assert_eq!(SimpleName("ab".to_owned()).serialize(), Value::String("ab".to_owned()));
}
