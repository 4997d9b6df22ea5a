//! The commit log: two append-only files, an index of fixed-size records and
//! the content they describe. This module holds what the log decides; the
//! streams themselves are driven from outside.
use crate::decode::decode_bytes;
use crate::encode::{enc_value, value_wf};
use crate::hash::{shake256, shake256_of};
use crate::meta::{
    enc_index_item, hash32, index_item_of, lemma_hash32, lemma_index_item, CommitIndexItem, CommitPtr,
    ContentHash,
};
use crate::schema::{commit_from_value, commit_value, lemma_commit_schema_round_trip, Commit, CommitV};
use crate::types::Value;
use crate::wire::{be32, from_be32, lemma_be32, DecodeError};
use crate::laws::lemma_round_trip;
use vstd::prelude::*;

verus! {

/// Magic number at the start of the index file.
pub const BS_IDENT_INDEX: u32 = 0x42650100;

/// Magic number at the start of the content file.
pub const BS_IDENT_CONTENT: u32 = 0x42650200;

/// Length of the magic number of each file: where content begins.
pub const IDENT_LEN: u64 = 4;

/// What can make a log unreadable.
#[derive(Debug, PartialEq, Eq)]
pub enum Error {
    /// A file's magic number: found, expected.
    Ident(u32, u32),
    /// The commit key of the index, and the one the content holds.
    Unorder(CommitPtr, CommitPtr),
    /// The hash of the index, and the hash of the content.
    Hash(ContentHash, ContentHash),
    /// The content is not a value.
    Decode(DecodeError),
    /// The content is a value, but not a commit.
    Schema,
}

/// What checking a magic number gives.
pub open spec fn ident_result(ident: Seq<u8>, expected: u32) -> Result<(), Error> {
    if from_be32(ident) == expected {
        Ok(())
    } else {
        Err(Error::Ident(from_be32(ident), expected))
    }
}

fn check_ident(ident: [u8; 4], expected: u32) -> (r: Result<(), Error>)
    ensures
        r == ident_result(ident@, expected),
{
    let got = ((ident[0] as u32) << 24u32) | ((ident[1] as u32) << 16u32) | ((ident[2] as u32)
        << 8u32) | (ident[3] as u32);
    if got == expected {
        Ok(())
    } else {
        Err(Error::Ident(got, expected))
    }
}

/// Checks the magic number read from the head of the index file.
pub fn check_index_ident(ident: [u8; 4]) -> (r: Result<(), Error>)
    ensures
        r == ident_result(ident@, BS_IDENT_INDEX),
{
    check_ident(ident, BS_IDENT_INDEX)
}

/// Checks the magic number read from the head of the content file.
pub fn check_content_ident(ident: [u8; 4]) -> (r: Result<(), Error>)
    ensures
        r == ident_result(ident@, BS_IDENT_CONTENT),
{
    check_ident(ident, BS_IDENT_CONTENT)
}

/// The four bytes that head a file with magic number `ident`.
pub fn ident_bytes(ident: u32) -> (r: [u8; 4])
    ensures
        r@ == be32(ident),
        ident_result(r@, ident) == Ok::<(), Error>(()),
{
    let r = [
        #[verifier::truncate] ((ident >> 24u32) as u8),
        #[verifier::truncate] ((ident >> 16u32) as u8),
        #[verifier::truncate] ((ident >> 8u32) as u8),
        #[verifier::truncate] (ident as u8),
    ];
    proof {
        assert(r@ =~= be32(ident));
        lemma_be32(ident);
    }
    r
}

/// A commit whose content can be encoded.
pub open spec fn commit_wf(c: CommitV) -> bool {
    value_wf(commit_value(c))
}

/// The content bytes of a commit.
pub open spec fn commit_content(c: CommitV) -> Seq<u8> {
    enc_value(commit_value(c))
}

/// The index record of content bytes with key `ptr` and hash `hash`.
pub open spec fn written_item(ptr: CommitPtr, content: Seq<u8>, hash: ContentHash) -> CommitIndexItem {
    CommitIndexItem { ptr, len: content.len() as u64, hash }
}

/// Turns a commit into its index record and its content bytes.
pub fn write_commit(commit: Commit) -> (r: (Vec<u8>, Vec<u8>))
    requires
        commit_wf(commit@),
    ensures
        r.1@ == commit_content(commit@),
        r.0@ == enc_index_item(written_item(commit@.ptr, r.1@, hash32(shake256_of(r.1@)))),
{
    let ptr = commit.ptr;
    let content = commit.serialize().encode();
    let len = content.len() as u64;
    let hash = shake256(content.as_slice());
    proof {
        lemma_hash32(hash);
    }
    let item = CommitIndexItem { ptr, len, hash };
    let index = item.to_bytes();
    (index, content)
}

/// What reading a commit from its index record's key and hash and its
/// content bytes gives: the hash is checked, then the content decoded as a
/// commit, then its key checked against the index.
pub open spec fn check_commit_result(ptr: CommitPtr, hash: ContentHash, content: Seq<u8>) -> Result<
    (CommitV, ContentHash),
    Error,
> {
    if hash@ != shake256_of(content) {
        Err(Error::Hash(hash, hash32(shake256_of(content))))
    } else {
        match decode_bytes(content) {
            Err(e) => Err(Error::Decode(e)),
            Ok(v) => match commit_from_value(v) {
                None => Err(Error::Schema),
                Some(c) => if c.ptr != ptr {
                    Err(Error::Unorder(ptr, c.ptr))
                } else {
                    Ok((c, hash))
                },
            },
        }
    }
}

fn hash_eq(a: &ContentHash, b: &ContentHash) -> (r: bool)
    ensures
        r == (a@ == b@),
{
    let mut i: usize = 0;
    while i < 32
        invariant
            i <= 32,
            forall|j: int| 0 <= j < i ==> a@[j] == b@[j],
        decreases 32 - i,
    {
        if a[i] != b[i] {
            return false;
        }
        i = i + 1;
    }
    assert(a@ =~= b@);
    true
}

/// Checks and decodes the content of one commit.
pub fn check_commit(ptr: CommitPtr, hash: ContentHash, content: Vec<u8>) -> (r: Result<
    (Commit, ContentHash),
    Error,
>)
    ensures
        match r {
            Ok((c, h)) => check_commit_result(ptr, hash, content@) == Ok::<(CommitV, ContentHash), Error>(
                (c@, h),
            ),
            Err(e) => check_commit_result(ptr, hash, content@) == Err::<(CommitV, ContentHash), Error>(e),
        },
{
    let actual = shake256(content.as_slice());
    if !hash_eq(&hash, &actual) {
        proof {
            lemma_hash32(actual);
        }
        return Err(Error::Hash(hash, actual));
    }
    let v = match Value::decode(content.as_slice()) {
        Ok(v) => v,
        Err(e) => return Err(Error::Decode(e)),
    };
    let c = match Commit::deserialize(v) {
        Some(c) => c,
        None => return Err(Error::Schema),
    };
    if c.ptr != ptr {
        return Err(Error::Unorder(ptr, c.ptr));
    }
    Ok((c, hash))
}

/// Replaying what was written gives the commit back with its hash, and its
/// index record reads back as written.
pub proof fn lemma_write_then_check(c: CommitV, h: ContentHash)
    requires
        commit_wf(c),
        h@ == shake256_of(commit_content(c)),
    ensures
        check_commit_result(c.ptr, h, commit_content(c)) == Ok::<(CommitV, ContentHash), Error>((c, h)),
        index_item_of(enc_index_item(written_item(c.ptr, commit_content(c), h))) == written_item(
            c.ptr,
            commit_content(c),
            h,
        ),
{
    lemma_round_trip(commit_value(c));
    lemma_commit_schema_round_trip(c);
    let it = written_item(c.ptr, commit_content(c), h);
    lemma_index_item(it, seq![]);
    assert(enc_index_item(it) + seq![] =~= enc_index_item(it));
}

/// The total content length of `items`: where the content of the next
/// record would begin, counted from the first record's content.
pub open spec fn offset_of(items: Seq<CommitIndexItem>) -> nat
    decreases items.len(),
{
    if items.len() == 0 {
        0
    } else {
        offset_of(items.drop_last()) + items.last().len as nat
    }
}

pub proof fn lemma_offset_mono(items: Seq<CommitIndexItem>, i: int, j: int)
    requires
        0 <= i <= j <= items.len(),
    ensures
        offset_of(items.subrange(0, i)) <= offset_of(items.subrange(0, j)),
    decreases j - i,
{
    if i < j {
        lemma_offset_mono(items, i, j - 1);
        assert(items.subrange(0, j).drop_last() =~= items.subrange(0, j - 1));
    }
}

/// The most content bytes that the index may describe: every content offset,
/// magic number included, fits in 64 bits.
pub const CONTENT_LIMIT: u64 = 0xffff_ffff_ffff_fffb;

/// The first record of `items` whose key is `ptr`, with the offset of its
/// content.
pub open spec fn find_ptr(items: Seq<CommitIndexItem>, ptr: CommitPtr) -> Option<(u64, CommitIndexItem)>
    decreases items.len(),
{
    if items.len() == 0 {
        None
    } else {
        match find_ptr(items.drop_last(), ptr) {
            Some(x) => Some(x),
            None => if items.last().ptr == ptr {
                Some((offset_of(items.drop_last()) as u64, items.last()))
            } else {
                None
            },
        }
    }
}

/// The first record of `items` whose hash is `hash`, with the offset of its
/// content.
pub open spec fn find_hash(items: Seq<CommitIndexItem>, hash: ContentHash) -> Option<
    (u64, CommitIndexItem),
>
    decreases items.len(),
{
    if items.len() == 0 {
        None
    } else {
        match find_hash(items.drop_last(), hash) {
            Some(x) => Some(x),
            None => if items.last().hash@ == hash@ {
                Some((offset_of(items.drop_last()) as u64, items.last()))
            } else {
                None
            },
        }
    }
}

/// The whole index held in memory, with a position for reading it in order.
pub struct MemoryIndex {
    items: Vec<CommitIndexItem>,
    index: usize,
    offset: u64,
}

impl MemoryIndex {
    /// The records.
    pub closed spec fn items(&self) -> Seq<CommitIndexItem> {
        self.items@
    }

    /// How many records were read in order.
    pub closed spec fn position(&self) -> nat {
        self.index as nat
    }

    pub closed spec fn wf(&self) -> bool {
        &&& self.index <= self.items@.len()
        &&& self.offset == offset_of(self.items@.subrange(0, self.index as int))
        &&& offset_of(self.items@) <= CONTENT_LIMIT
    }

    /// Takes the records of an index file; `None` when their content would
    /// not fit a file that 64-bit offsets can address.
    pub fn new(items: Vec<CommitIndexItem>) -> (r: Option<MemoryIndex>)
        ensures
            match r {
                Some(m) => m.wf() && m.items() == items@ && m.position() == 0,
                None => offset_of(items@) > CONTENT_LIMIT,
            },
    {
        let mut total: u64 = 0;
        let mut i: usize = 0;
        while i < items.len()
            invariant
                i <= items@.len(),
                total == offset_of(items@.subrange(0, i as int)),
                total <= CONTENT_LIMIT,
            decreases items@.len() - i,
        {
            assert(items@.subrange(0, i + 1).drop_last() =~= items@.subrange(0, i as int));
            if items[i].len > CONTENT_LIMIT - total {
                proof {
                    lemma_offset_mono(items@, i + 1, items@.len() as int);
                    assert(items@.subrange(0, items@.len() as int) =~= items@);
                }
                return None;
            }
            total = total + items[i].len;
            i = i + 1;
        }
        assert(items@.subrange(0, items@.len() as int) =~= items@);
        assert(items@.subrange(0, 0) =~= Seq::<CommitIndexItem>::empty());
        Some(MemoryIndex { items, index: 0, offset: 0 })
    }

    /// The first record with key `ptr`, and where its content begins.
    pub fn find(&self, ptr: CommitPtr) -> (r: Option<(u64, CommitIndexItem)>)
        requires
            self.wf(),
        ensures
            r == find_ptr(self.items(), ptr),
    {
        let mut offset: u64 = 0;
        let mut i: usize = 0;
        while i < self.items.len()
            invariant
                self.wf(),
                i <= self.items@.len(),
                offset == offset_of(self.items@.subrange(0, i as int)),
                find_ptr(self.items@.subrange(0, i as int), ptr) is None,
            decreases self.items@.len() - i,
        {
            let item = self.items[i];
            proof {
                assert(self.items@.subrange(0, i + 1).drop_last() =~= self.items@.subrange(0, i as int));
                lemma_offset_mono(self.items@, i + 1, self.items@.len() as int);
                assert(self.items@.subrange(0, self.items@.len() as int) =~= self.items@);
            }
            if item.ptr == ptr {
                proof {
                    lemma_find_ptr_prefix(self.items@, i + 1, ptr);
                }
                return Some((offset, item));
            }
            offset = offset + item.len;
            i = i + 1;
        }
        assert(self.items@.subrange(0, self.items@.len() as int) =~= self.items@);
        None
    }

    /// The first record whose content hash is `hash`, and where its content
    /// begins.
    pub fn find_by_hash(&self, hash: ContentHash) -> (r: Option<(u64, CommitIndexItem)>)
        requires
            self.wf(),
        ensures
            r == find_hash(self.items(), hash),
    {
        let mut offset: u64 = 0;
        let mut i: usize = 0;
        while i < self.items.len()
            invariant
                self.wf(),
                i <= self.items@.len(),
                offset == offset_of(self.items@.subrange(0, i as int)),
                find_hash(self.items@.subrange(0, i as int), hash) is None,
            decreases self.items@.len() - i,
        {
            let item = self.items[i];
            proof {
                assert(self.items@.subrange(0, i + 1).drop_last() =~= self.items@.subrange(0, i as int));
                lemma_offset_mono(self.items@, i + 1, self.items@.len() as int);
                assert(self.items@.subrange(0, self.items@.len() as int) =~= self.items@);
            }
            if hash_eq(&item.hash, &hash) {
                proof {
                    lemma_find_hash_prefix(self.items@, i + 1, hash);
                }
                return Some((offset, item));
            }
            offset = offset + item.len;
            i = i + 1;
        }
        assert(self.items@.subrange(0, self.items@.len() as int) =~= self.items@);
        None
    }

    /// Starts reading in order from the first record again.
    pub fn clear_iter_state(&mut self)
        requires
            old(self).wf(),
        ensures
            final(self).wf(),
            final(self).items() == old(self).items(),
            final(self).position() == 0,
    {
        self.index = 0;
        self.offset = 0;
        assert(self.items@.subrange(0, 0) =~= Seq::<CommitIndexItem>::empty());
    }

    /// The next record in order, and where its content begins.
    pub fn next(&mut self) -> (r: Option<(u64, CommitIndexItem)>)
        requires
            old(self).wf(),
        ensures
            final(self).wf(),
            final(self).items() == old(self).items(),
            old(self).position() < old(self).items().len() ==> r == Some(
                (
                    offset_of(old(self).items().subrange(0, old(self).position() as int)) as u64,
                    old(self).items()[old(self).position() as int],
                ),
            ) && final(self).position() == old(self).position() + 1,
            old(self).position() >= old(self).items().len() ==> r is None && final(self).position()
                == old(self).position(),
    {
        if self.index >= self.items.len() {
            return None;
        }
        let item = self.items[self.index];
        let offset = self.offset;
        proof {
            let i = self.index as int;
            assert(self.items@.subrange(0, i + 1).drop_last() =~= self.items@.subrange(0, i));
            lemma_offset_mono(self.items@, i + 1, self.items@.len() as int);
            assert(self.items@.subrange(0, self.items@.len() as int) =~= self.items@);
        }
        self.index = self.index + 1;
        self.offset = self.offset + item.len;
        Some((offset, item))
    }
}

proof fn lemma_find_ptr_prefix(items: Seq<CommitIndexItem>, i: int, ptr: CommitPtr)
    requires
        0 < i <= items.len(),
        find_ptr(items.subrange(0, i), ptr) is Some,
    ensures
        find_ptr(items, ptr) == find_ptr(items.subrange(0, i), ptr),
    decreases items.len() - i,
{
    if i < items.len() {
        assert(items.subrange(0, i + 1).drop_last() =~= items.subrange(0, i));
        lemma_find_ptr_prefix(items, i + 1, ptr);
    } else {
        assert(items.subrange(0, i) =~= items);
    }
}

proof fn lemma_find_hash_prefix(items: Seq<CommitIndexItem>, i: int, hash: ContentHash)
    requires
        0 < i <= items.len(),
        find_hash(items.subrange(0, i), hash) is Some,
    ensures
        find_hash(items, hash) == find_hash(items.subrange(0, i), hash),
    decreases items.len() - i,
{
    if i < items.len() {
        assert(items.subrange(0, i + 1).drop_last() =~= items.subrange(0, i));
        lemma_find_hash_prefix(items, i + 1, hash);
    } else {
        assert(items.subrange(0, i) =~= items);
    }
}

/// What the driver of the content stream must do to read one commit: seek
/// to `seek` first when it holds an offset, then read `item.len` bytes and
/// check them against `item`.
#[derive(Clone, Copy, Debug, PartialEq, Eq)]
pub struct ReadPlan {
    pub seek: Option<u64>,
    pub item: CommitIndexItem,
}

/// The model of a random-access reader: the records, how many were read in
/// order, and whether the content cursor was last moved by a lookup.
pub struct ReaderModel {
    pub items: Seq<CommitIndexItem>,
    pub position: nat,
    pub dirty: bool,
}

/// Where the content of record `i` begins in the content file.
pub open spec fn content_pos(items: Seq<CommitIndexItem>, i: nat) -> int {
    IDENT_LEN + offset_of(items.subrange(0, i as int))
}

/// The next record in order: seek only when a lookup moved the cursor.
pub open spec fn step_next(m: ReaderModel) -> Option<(ReadPlan, ReaderModel)> {
    if m.position < m.items.len() {
        Some(
            (
                ReadPlan {
                    seek: if m.dirty {
                        Some(content_pos(m.items, m.position) as u64)
                    } else {
                        None
                    },
                    item: m.items[m.position as int],
                },
                ReaderModel { items: m.items, position: m.position + 1, dirty: false },
            ),
        )
    } else {
        None
    }
}

/// A lookup that found `found`: always seek, and mark the cursor moved.
pub open spec fn step_find(m: ReaderModel, found: Option<(u64, CommitIndexItem)>) -> Option<
    (ReadPlan, ReaderModel),
> {
    match found {
        Some((o, it)) => Some(
            (
                ReadPlan { seek: Some((IDENT_LEN + o) as u64), item: it },
                ReaderModel { items: m.items, position: m.position, dirty: true },
            ),
        ),
        None => None,
    }
}

/// The decisions of a random-access reader over a `MemoryIndex`: which
/// record to read next and whether the content stream must seek first.
pub struct IndexedReaderState {
    index: MemoryIndex,
    dirty: bool,
}

impl View for IndexedReaderState {
    type V = ReaderModel;

    closed spec fn view(&self) -> ReaderModel {
        ReaderModel { items: self.index.items(), position: self.index.position(), dirty: self.dirty }
    }
}

impl IndexedReaderState {
    pub closed spec fn wf(&self) -> bool {
        self.index.wf()
    }

    /// Starts at the first record, with the content stream just past its
    /// magic number.
    pub fn new(index: MemoryIndex) -> (r: IndexedReaderState)
        requires
            index.wf(),
        ensures
            r.wf(),
            r@.items == index.items(),
            r@.position == 0,
            !r@.dirty,
    {
        let mut index = index;
        index.clear_iter_state();
        IndexedReaderState { index, dirty: false }
    }

    /// Plans reading the first commit with key `ptr`.
    pub fn find(&mut self, ptr: CommitPtr) -> (r: Option<ReadPlan>)
        requires
            old(self).wf(),
        ensures
            final(self).wf(),
            match r {
                Some(p) => step_find(old(self)@, find_ptr(old(self)@.items, ptr)) == Some(
                    (p, final(self)@),
                ),
                None => find_ptr(old(self)@.items, ptr) is None && final(self)@ == old(self)@,
            },
    {
        match self.index.find(ptr) {
            Some((o, it)) => {
                proof {
                    lemma_found_ptr(self.index.items(), ptr);
                    lemma_found_in_bounds(self.index.items(), find_ptr(self.index.items(), ptr));
                }
                self.dirty = true;
                Some(ReadPlan { seek: Some(IDENT_LEN + o), item: it })
            },
            None => None,
        }
    }

    /// Plans reading the first commit whose content hash is `hash`.
    pub fn find_by_hash(&mut self, hash: ContentHash) -> (r: Option<ReadPlan>)
        requires
            old(self).wf(),
        ensures
            final(self).wf(),
            match r {
                Some(p) => step_find(old(self)@, find_hash(old(self)@.items, hash)) == Some(
                    (p, final(self)@),
                ),
                None => find_hash(old(self)@.items, hash) is None && final(self)@ == old(self)@,
            },
    {
        match self.index.find_by_hash(hash) {
            Some((o, it)) => {
                proof {
                    lemma_found_hash(self.index.items(), hash);
                    lemma_found_in_bounds(self.index.items(), find_hash(self.index.items(), hash));
                }
                self.dirty = true;
                Some(ReadPlan { seek: Some(IDENT_LEN + o), item: it })
            },
            None => None,
        }
    }

    /// Plans reading the next commit in order.
    pub fn read_next(&mut self) -> (r: Option<ReadPlan>)
        requires
            old(self).wf(),
        ensures
            final(self).wf(),
            match r {
                Some(p) => step_next(old(self)@) == Some((p, final(self)@)),
                None => step_next(old(self)@) is None && final(self)@ == old(self)@,
            },
    {
        let ghost before = self.index.items();
        let ghost at = self.index.position();
        match self.index.next() {
            Some((o, it)) => {
                proof {
                    lemma_offset_mono(before, at as int, before.len() as int);
                    assert(before.subrange(0, before.len() as int) =~= before);
                }
                let seek = if self.dirty {
                    Some(IDENT_LEN + o)
                } else {
                    None
                };
                self.dirty = false;
                Some(ReadPlan { seek, item: it })
            },
            None => None,
        }
    }
}

/// A record that a lookup finds sits where reading in order would find it.
pub open spec fn found_at(items: Seq<CommitIndexItem>, found: Option<(u64, CommitIndexItem)>, i: int) -> bool {
    0 <= i < items.len() && found == Some((offset_of(items.subrange(0, i)) as u64, items[i]))
}

pub proof fn lemma_found_ptr(items: Seq<CommitIndexItem>, ptr: CommitPtr)
    ensures
        find_ptr(items, ptr) is Some ==> exists|i: int|
            found_at(items, find_ptr(items, ptr), i) && items[i].ptr == ptr,
    decreases items.len(),
{
    if items.len() > 0 {
        let front = items.drop_last();
        lemma_found_ptr(front, ptr);
        assert(items.subrange(0, items.len() - 1) =~= front);
        if find_ptr(front, ptr) is Some {
            let i = choose|i: int| found_at(front, find_ptr(front, ptr), i) && front[i].ptr == ptr;
            assert(items.subrange(0, i) =~= front.subrange(0, i));
            assert(found_at(items, find_ptr(items, ptr), i));
        } else if items.last().ptr == ptr {
            assert(found_at(items, find_ptr(items, ptr), items.len() - 1));
        }
    }
}

pub proof fn lemma_found_hash(items: Seq<CommitIndexItem>, hash: ContentHash)
    ensures
        find_hash(items, hash) is Some ==> exists|i: int|
            found_at(items, find_hash(items, hash), i) && items[i].hash@ == hash@,
    decreases items.len(),
{
    if items.len() > 0 {
        let front = items.drop_last();
        lemma_found_hash(front, hash);
        assert(items.subrange(0, items.len() - 1) =~= front);
        if find_hash(front, hash) is Some {
            let i = choose|i: int| found_at(front, find_hash(front, hash), i) && front[i].hash@
                == hash@;
            assert(items.subrange(0, i) =~= front.subrange(0, i));
            assert(found_at(items, find_hash(items, hash), i));
        } else if items.last().hash@ == hash@ {
            assert(found_at(items, find_hash(items, hash), items.len() - 1));
        }
    }
}

proof fn lemma_found_in_bounds(items: Seq<CommitIndexItem>, found: Option<(u64, CommitIndexItem)>)
    requires
        offset_of(items) <= CONTENT_LIMIT,
        found is Some,
        exists|i: int| found_at(items, found, i),
    ensures
        IDENT_LEN + found->Some_0.0 <= u64::MAX,
{
    let i = choose|i: int| found_at(items, found, i);
    lemma_offset_mono(items, i, items.len() as int);
    assert(items.subrange(0, items.len() as int) =~= items);
}

/// The cursor is where reading in order expects it, unless a lookup moved it.
pub open spec fn cursor_ok(m: ReaderModel, pos: int) -> bool {
    !m.dirty ==> pos == content_pos(m.items, m.position)
}

/// Where a plan starts reading when the content cursor is at `pos`.
pub open spec fn read_start(pos: int, p: ReadPlan) -> int {
    match p.seek {
        Some(o) => o as int,
        None => pos,
    }
}

/// Reading in order always reads the next record at its place, whatever
/// lookups came before; and after a lookup, the next read in order still
/// does.
pub proof fn lemma_random_access_equivalence(m: ReaderModel, pos: int, ptr: CommitPtr)
    requires
        cursor_ok(m, pos),
        offset_of(m.items) <= CONTENT_LIMIT,
    ensures
        m.position < m.items.len() ==> (step_next(m) matches Some((p, m2)) && p.item == m.items[
            m.position as int] && read_start(pos, p) == content_pos(m.items, m.position) && cursor_ok(
            m2,
            read_start(pos, p) + p.item.len,
        )),
        step_find(m, find_ptr(m.items, ptr)) matches Some((p, m2)) ==> (exists|i: int|
            0 <= i < m.items.len() && p.item == m.items[i] && p.item.ptr == ptr && read_start(pos, p)
                == content_pos(m.items, i as nat)) && m2.position == m.position && m2.dirty,
{
    if m.position < m.items.len() {
        let i = m.position as int;
        lemma_offset_mono(m.items, i, m.items.len() as int);
        assert(m.items.subrange(0, m.items.len() as int) =~= m.items);
        assert(m.items.subrange(0, i + 1).drop_last() =~= m.items.subrange(0, i));
    }
    lemma_found_ptr(m.items, ptr);
    if find_ptr(m.items, ptr) is Some {
        let i = choose|i: int| found_at(m.items, find_ptr(m.items, ptr), i) && m.items[i].ptr == ptr;
        lemma_offset_mono(m.items, i, m.items.len() as int);
        assert(m.items.subrange(0, m.items.len() as int) =~= m.items);
    }
}

} // verus!
