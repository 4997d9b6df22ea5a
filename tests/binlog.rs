use zeon::binlog::{
    check_commit, check_content_ident, check_index_ident, ident_bytes, write_commit,
    Error, IndexedReaderState, MemoryIndex, BS_IDENT_CONTENT, BS_IDENT_INDEX,
};
use zeon::meta::{CommitIndexItem, CommitPtr, ObjectPtr, Timestamp, TypePtr, INDEX_ITEM_SIZE};
use zeon::schema::{Commit, Rev, RevPtr};
use zeon::types::Value;

fn ptr(secs: i64, seq: u16) -> CommitPtr {
    CommitPtr {
        ts: Timestamp { secs, nanos: 7 },
        opr: ObjectPtr { ot: 3, oid: 0x42 },
        seq,
    }
}

fn commit(secs: i64, seq: u16, n: u64) -> Commit {
    let rp = RevPtr { object: ObjectPtr { ot: 1, oid: n }, trait_type: TypePtr::from_u16(0x8001), attr: 2 };
    let rp2 = RevPtr { object: ObjectPtr { ot: 1, oid: n + 1 }, trait_type: TypePtr::from_u16(0x8000), attr: 0 };
    Commit {
        ptr: ptr(secs, seq),
        revs: vec![
            (rp, Rev::Mut(Value::String(format!("name-{}", n)))),
            (rp2, Rev::IterSetAdd(vec![Value::TypePtr(TypePtr::from_u16(0x0005)), Value::UInt(n)])),
        ],
    }
}

struct Files {
    index: Vec<u8>,
    content: Vec<u8>,
}

fn write_all(commits: Vec<Commit>) -> Files {
    let mut f = Files { index: ident_bytes(BS_IDENT_INDEX).to_vec(), content: ident_bytes(BS_IDENT_CONTENT).to_vec() };
    for c in commits {
        let (index, content) = write_commit(c);
        f.content.extend_from_slice(&content);
        f.index.extend_from_slice(&index);
    }
    f
}

fn head(b: &[u8]) -> [u8; 4] {
    [b[0], b[1], b[2], b[3]]
}

fn replay(f: &Files) -> Vec<Result<(Commit, [u8; 32]), Error>> {
    check_index_ident(head(&f.index)).unwrap();
    check_content_ident(head(&f.content)).unwrap();
    let mut out = Vec::new();
    let mut ipos = 4;
    let mut cpos = 4;
    while ipos + INDEX_ITEM_SIZE <= f.index.len() {
        let item = CommitIndexItem::from_bytes(&f.index[ipos..ipos + INDEX_ITEM_SIZE]);
        ipos += INDEX_ITEM_SIZE;
        let end = cpos + item.len as usize;
        let content = f.content[cpos..end].to_vec();
        cpos = end;
        let r = check_commit(item.ptr, item.hash, content);
        let failed = r.is_err();
        out.push(r);
        if failed {
            break;
        }
    }
    out
}

fn items(f: &Files) -> Vec<CommitIndexItem> {
    f.index[4..].chunks(INDEX_ITEM_SIZE).map(CommitIndexItem::from_bytes).collect()
}

fn read_plan(f: &Files, cursor: &mut usize, plan: zeon::binlog::ReadPlan) -> Commit {
    if let Some(o) = plan.seek {
        *cursor = o as usize;
    }
    let end = *cursor + plan.item.len as usize;
    let content = f.content[*cursor..end].to_vec();
    *cursor = end;
    check_commit(plan.item.ptr, plan.item.hash, content).unwrap().0
}

#[test]
fn end_to_end_three_commits() {
    let f = write_all(vec![commit(10, 0, 1), commit(20, 0, 2), commit(30, 1, 3)]);
    assert_eq!(f.index.len(), 4 + 3 * 64);
    let replayed = replay(&f);
    assert_eq!(replayed.len(), 3);
    let got: Vec<Commit> = replayed.into_iter().map(|r| r.unwrap().0).collect();
    assert_eq!(got, vec![commit(10, 0, 1), commit(20, 0, 2), commit(30, 1, 3)]);

    let mut st = IndexedReaderState::new(MemoryIndex::new(items(&f)).unwrap());
    let mut cursor = 4usize;
    let first = st.read_next().unwrap();
    assert_eq!(first.seek, None);
    assert_eq!(read_plan(&f, &mut cursor, first), commit(10, 0, 1));
    let found = st.find(ptr(20, 0)).unwrap();
    assert!(found.seek.is_some());
    assert_eq!(read_plan(&f, &mut cursor, found), commit(20, 0, 2));
    let second = st.read_next().unwrap();
    assert!(second.seek.is_some());
    assert_eq!(read_plan(&f, &mut cursor, second), commit(20, 0, 2));
    let third = st.read_next().unwrap();
    assert_eq!(third.seek, None);
    assert_eq!(read_plan(&f, &mut cursor, third), commit(30, 1, 3));
    assert!(st.read_next().is_none());
}

#[test]
fn replay_matches_hashes_and_order() {
    let f = write_all(vec![commit(1, 0, 10), commit(2, 0, 11)]);
    let its = items(&f);
    let replayed = replay(&f);
    for (i, r) in replayed.into_iter().enumerate() {
        let (c, h) = r.unwrap();
        assert_eq!(h, its[i].hash);
        assert_eq!(c.ptr, its[i].ptr);
    }
}

#[test]
fn corrupted_content_fails_at_that_record() {
    let mut f = write_all(vec![commit(1, 0, 10), commit(2, 0, 11), commit(3, 0, 12)]);
    let its = items(&f);
    let second_start = 4 + its[0].len as usize;
    f.content[second_start + 2] ^= 0x01;
    let replayed = replay(&f);
    assert_eq!(replayed.len(), 2);
    assert_eq!(replayed[0].as_ref().unwrap().0, commit(1, 0, 10));
    assert!(matches!(replayed[1], Err(Error::Hash(_, _))));
}

#[test]
fn find_by_hash_and_random_access() {
    let f = write_all(vec![commit(1, 0, 10), commit(2, 0, 11), commit(3, 0, 12)]);
    let its = items(&f);
    let idx = MemoryIndex::new(its.clone()).unwrap();
    let (o, it) = idx.find(ptr(3, 0)).unwrap();
    assert_eq!(o, its[0].len + its[1].len);
    assert_eq!(it, its[2]);
    let (o, it) = idx.find_by_hash(its[1].hash).unwrap();
    assert_eq!(o, its[0].len);
    assert_eq!(it, its[1]);
    assert!(idx.find(ptr(4, 0)).is_none());
    let mut st = IndexedReaderState::new(idx);
    let mut cursor = 4usize;
    let plan = st.find_by_hash(its[2].hash).unwrap();
    assert_eq!(read_plan(&f, &mut cursor, plan), commit(3, 0, 12));
    let plan = st.read_next().unwrap();
    assert_eq!(read_plan(&f, &mut cursor, plan), commit(1, 0, 10));
    assert!(st.find(ptr(9, 9)).is_none());
}

#[test]
fn memory_index_iterates_in_order() {
    let f = write_all(vec![commit(1, 0, 10), commit(2, 0, 11)]);
    let its = items(&f);
    let mut idx = MemoryIndex::new(its.clone()).unwrap();
    assert_eq!(idx.next(), Some((0, its[0])));
    assert_eq!(idx.next(), Some((its[0].len, its[1])));
    assert_eq!(idx.next(), None);
    idx.clear_iter_state();
    assert_eq!(idx.next(), Some((0, its[0])));
    let mut big = its.clone();
    big[0].len = u64::MAX;
    assert!(MemoryIndex::new(big).is_none());
}

#[test]
fn ident_and_key_errors() {
    assert_eq!(check_index_ident([0x42, 0x65, 0x01, 0x00]), Ok(()));
    assert_eq!(check_content_ident([0x42, 0x65, 0x01, 0x00]), Err(Error::Ident(0x42650100, 0x42650200)));
    let (index, content) = write_commit(commit(5, 0, 1));
    let item = CommitIndexItem::from_bytes(&index);
    assert_eq!(item.len as usize, content.len());
    assert_eq!(
        check_commit(ptr(6, 0), item.hash, content.clone()),
        Err(Error::Unorder(ptr(6, 0), ptr(5, 0)))
    );
    let junk = vec![0x00, 0x00];
    let (_, junk_hash) = {
        let (i, _) = write_commit(commit(5, 0, 1));
        (i, [0u8; 32])
    };
    assert!(matches!(check_commit(ptr(5, 0), junk_hash, junk), Err(Error::Hash(_, _))));
}

#[test]
fn commit_schema_round_trip() {
    let v = commit(8, 2, 4).serialize();
    assert_eq!(Commit::deserialize(v), Some(commit(8, 2, 4)));
    assert_eq!(Commit::deserialize(Value::UInt(1)), None);
    assert_eq!(Rev::deserialize(Rev::Const(Value::Unit).serialize()), Some(Rev::Const(Value::Unit)));
    assert_eq!(Rev::deserialize(Value::Enum(TypePtr::from_u16(6), 9, Box::new(Value::Unit))), None);
}

#[test]
fn commit_well_formedness() {
    assert!(commit(1, 0, 1).is_wf());
    let rp = RevPtr { object: ObjectPtr { ot: 1, oid: 1 }, trait_type: TypePtr::from_u16_unchecked(0xff00), attr: 0 };
    let c = Commit { ptr: ptr(1, 0), revs: vec![(rp, Rev::Const(Value::Unit))] };
    assert!(!c.is_wf());
}
