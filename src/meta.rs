//! Ordering keys and fixed-size records: timestamps, object and type
//! pointers, commit pointers and index entries.
use crate::hash::{shake256, shake256_of};
use crate::wire::{
    be16, be32, be64, from_be16, from_be32, from_be64, lemma_be16, lemma_be32, lemma_be64,
    lemma_i64_u64, push_u16, push_u32, push_u64, read_u16, read_u32, read_u64, rest, DecodeError,
};
use vstd::prelude::*;
use vstd::string::StringSliceAdditionalSpecFns;

verus! {

/// Seconds from the Unix epoch to this library's epoch.
pub const EPOCH_AFTER_UNIX_EPOCH_SEC: i64 = 978307200;

/// A point in time: seconds since the library's epoch and nanoseconds.
#[derive(Clone, Copy, Debug, PartialEq, Eq, PartialOrd, Ord, Hash, Structural)]
pub struct Timestamp {
    pub secs: i64,
    pub nanos: u32,
}

/// The entity a commit mutates: an object type tag and an object id.
#[derive(Clone, Copy, Debug, PartialEq, Eq, PartialOrd, Ord, Hash, Structural)]
pub struct ObjectPtr {
    pub ot: u16,
    pub oid: u64,
}

/// A registered 16-bit type code.
#[derive(Clone, Copy, Debug, PartialEq, Eq, PartialOrd, Ord, Hash, Structural)]
pub struct StdPtr(pub u16);

/// Names a type: a registered code, or the first seven bytes of the hash of
/// the type's path.
#[derive(Clone, Copy, Debug, PartialEq, Eq, PartialOrd, Ord, Hash)]
pub enum TypePtr {
    Std(StdPtr),
    Hash([u8; 7]),
}

/// The key of a commit, ordered by timestamp, then operator, then sequence.
#[derive(Clone, Copy, Debug, PartialEq, Eq, PartialOrd, Ord, Hash, Structural)]
pub struct CommitPtr {
    pub ts: Timestamp,
    pub opr: ObjectPtr,
    pub seq: u16,
}

/// A content hash.
pub type ContentHash = [u8; 32];

/// One record of the index file: a commit's key, the length of its content
/// and the hash of that content.
#[derive(Clone, Copy, Debug, PartialEq, Eq)]
pub struct CommitIndexItem {
    pub ptr: CommitPtr,
    pub len: u64,
    pub hash: ContentHash,
}

/// A 16-bit code whose high byte is not 0xFF, so that it cannot be taken
/// for the marker of a hash pointer.
pub open spec fn std_code_ok(n: u16) -> bool {
    (n >> 8u16) != 0xffu16
}

/// Whether `n` can be a registered type code.
pub fn check_stdptr(n: u16) -> (r: bool)
    ensures
        r == std_code_ok(n),
{
    (n >> 8u16) != 0xffu16
}

/// Same as `check_stdptr`.
pub fn check_raw_stdptr(n: u16) -> (r: bool)
    ensures
        r == std_code_ok(n),
{
    check_stdptr(n)
}

impl StdPtr {
    pub fn from_u16(n: u16) -> (r: StdPtr)
        requires
            std_code_ok(n),
        ensures
            r.0 == n,
    {
        StdPtr(n)
    }

    pub fn from_u16_unchecked(n: u16) -> (r: StdPtr)
        ensures
            r.0 == n,
    {
        StdPtr(n)
    }

    pub fn to_u16(self) -> (r: u16)
        ensures
            r == self.0,
    {
        self.0
    }
}

/// The array of seven bytes whose view is `s`.
pub open spec fn hash7(s: Seq<u8>) -> [u8; 7] {
    choose|a: [u8; 7]| a@ == s
}

pub proof fn lemma_hash7(h: [u8; 7])
    ensures
        hash7(h@) == h,
{
    let a = hash7(h@);
    assert(a@ == h@);
    assert(a =~= h) by {
        assert forall|i: int| 0 <= i < 7 implies a[i] == h[i] by {
            assert(a@[i] == h@[i]);
        }
    }
}

impl TypePtr {
    /// Well formed: a registered code never has 0xFF as its high byte.
    pub open spec fn wf(self) -> bool {
        match self {
            TypePtr::Std(p) => std_code_ok(p.0),
            TypePtr::Hash(_) => true,
        }
    }

    pub fn from_u16(n: u16) -> (r: TypePtr)
        requires
            std_code_ok(n),
        ensures
            r == TypePtr::Std(StdPtr(n)),
            r.wf(),
    {
        TypePtr::Std(StdPtr(n))
    }

    pub fn from_u16_unchecked(n: u16) -> (r: TypePtr)
        ensures
            r == TypePtr::Std(StdPtr(n)),
    {
        TypePtr::Std(StdPtr(n))
    }

    /// The hash pointer of a type path: the first seven bytes of its hash.
    pub fn from_path(path: &str) -> (r: TypePtr)
        ensures
            r matches TypePtr::Hash(h) && h@ == shake256_of(path.spec_bytes()).subrange(0, 7),
    {
        let d = shake256(path.as_bytes());
        let mut h = [0u8; 7];
        let mut i: usize = 0;
        while i < 7
            invariant
                i <= 7,
                d@ == shake256_of(path.spec_bytes()),
                forall|j: int| 0 <= j < i ==> h@[j] == d@[j],
            decreases 7 - i,
        {
            h[i] = d[i];
            i = i + 1;
        }
        assert(h@ =~= shake256_of(path.spec_bytes()).subrange(0, 7));
        TypePtr::Hash(h)
    }

    pub fn as_std(self) -> (r: Option<StdPtr>)
        ensures
            r == (match self {
                TypePtr::Std(p) => Some(p),
                TypePtr::Hash(_) => None,
            }),
    {
        match self {
            TypePtr::Std(p) => Some(p),
            TypePtr::Hash(_) => None,
        }
    }

    pub fn as_std_inner(self) -> (r: Option<u16>)
        ensures
            r == (match self {
                TypePtr::Std(p) => Some(p.0),
                TypePtr::Hash(_) => None,
            }),
    {
        match self {
            TypePtr::Std(p) => Some(p.0),
            TypePtr::Hash(_) => None,
        }
    }

    pub fn as_hash(self) -> (r: Option<[u8; 7]>)
        ensures
            r == (match self {
                TypePtr::Std(_) => None,
                TypePtr::Hash(h) => Some(h),
            }),
    {
        match self {
            TypePtr::Std(_) => None,
            TypePtr::Hash(h) => Some(h),
        }
    }
}

/// The wire form of a type pointer: a registered code as two big-endian
/// bytes, a hash pointer as 0xFF and its seven bytes.
pub open spec fn enc_typeptr(p: TypePtr) -> Seq<u8> {
    match p {
        TypePtr::Std(s) => be16(s.0),
        TypePtr::Hash(h) => seq![0xffu8] + h@,
    }
}

/// Reads a type pointer: the first byte alone tells the two forms apart.
pub open spec fn parse_typeptr(s: Seq<u8>) -> Result<(TypePtr, nat), DecodeError> {
    if s.len() < 1 {
        Err(DecodeError::TooShort)
    } else if s[0] == 0xff {
        if s.len() < 8 {
            Err(DecodeError::TooShort)
        } else {
            Ok((TypePtr::Hash(hash7(s.subrange(1, 8))), 8))
        }
    } else if s.len() < 2 {
        Err(DecodeError::TooShort)
    } else {
        Ok((TypePtr::Std(StdPtr(from_be16(s))), 2))
    }
}

pub proof fn lemma_typeptr(p: TypePtr, rest: Seq<u8>)
    requires
        p.wf(),
    ensures
        parse_typeptr(enc_typeptr(p) + rest) == Ok::<(TypePtr, nat), DecodeError>(
            (p, enc_typeptr(p).len()),
        ),
{
    let s = enc_typeptr(p) + rest;
    match p {
        TypePtr::Std(sp) => {
            let n = sp.0;
            lemma_be16(n);
            assert(((n >> 8u16) as u8) != 0xffu8) by (bit_vector)
                requires
                    (n >> 8u16) != 0xffu16,
            ;
            assert(from_be16(s) == from_be16(be16(n)));
        },
        TypePtr::Hash(h) => {
            assert(s.subrange(1, 8) =~= h@);
            lemma_hash7(h);
        },
    }
}

/// Appends the wire form of a type pointer.
pub fn push_typeptr(out: &mut Vec<u8>, p: &TypePtr)
    ensures
        final(out)@ == old(out)@ + enc_typeptr(*p),
{
    match p {
        TypePtr::Std(s) => {
            push_u16(out, s.0);
        },
        TypePtr::Hash(h) => {
            out.push(0xff);
            let mut i: usize = 0;
            while i < 7
                invariant
                    i <= 7,
                    out@ == old(out)@ + seq![0xffu8] + h@.subrange(0, i as int),
                decreases 7 - i,
            {
                out.push(h[i]);
                i = i + 1;
                assert(out@ =~= old(out)@ + seq![0xffu8] + h@.subrange(0, i as int));
            }
            assert(h@.subrange(0, 7) =~= h@);
            assert(out@ =~= old(out)@ + enc_typeptr(*p));
        },
    }
}

/// Reads a type pointer at `pos`.
pub fn read_typeptr(s: &[u8], pos: usize) -> (r: Result<(TypePtr, usize), DecodeError>)
    requires
        pos <= s@.len(),
    ensures
        match r {
            Ok((p, q)) => pos <= q <= s@.len() && parse_typeptr(rest(s@, pos as int)) == Ok::<
                (TypePtr, nat),
                DecodeError,
            >((p, (q - pos) as nat)),
            Err(e) => parse_typeptr(rest(s@, pos as int)) == Err::<(TypePtr, nat), DecodeError>(e),
        },
{
    let n = s.len();
    if n - pos < 1 {
        return Err(DecodeError::TooShort);
    }
    if s[pos] == 0xff {
        if n - pos < 8 {
            return Err(DecodeError::TooShort);
        }
        let mut h = [0u8; 7];
        let mut i: usize = 0;
        while i < 7
            invariant
                n == s@.len(),
                pos + 8 <= n,
                i <= 7,
                forall|j: int| 0 <= j < i ==> h@[j] == s@[pos + 1 + j],
            decreases 7 - i,
        {
            h[i] = s[pos + 1 + i];
            i = i + 1;
        }
        proof {
            assert(h@ =~= rest(s@, pos as int).subrange(1, 8));
            lemma_hash7(h);
        }
        Ok((TypePtr::Hash(h), pos + 8))
    } else {
        if n - pos < 2 {
            return Err(DecodeError::TooShort);
        }
        Ok((TypePtr::Std(StdPtr(read_u16(s, pos))), pos + 2))
    }
}


/// The fixed ten bytes of an object pointer: type tag, then id.
pub open spec fn enc_objectptr(o: ObjectPtr) -> Seq<u8> {
    be16(o.ot) + be64(o.oid)
}

/// The object pointer held in the first ten bytes of `s`.
pub open spec fn objectptr_of(s: Seq<u8>) -> ObjectPtr {
    ObjectPtr { ot: from_be16(s), oid: from_be64(s.subrange(2, 10)) }
}

/// The fixed twelve bytes of a timestamp: signed seconds, then nanoseconds.
pub open spec fn enc_timestamp(t: Timestamp) -> Seq<u8> {
    be64(t.secs as u64) + be32(t.nanos)
}

/// The timestamp held in the first twelve bytes of `s`.
pub open spec fn timestamp_of(s: Seq<u8>) -> Timestamp {
    Timestamp { secs: from_be64(s) as i64, nanos: from_be32(s.subrange(8, 12)) }
}

pub proof fn lemma_objectptr(o: ObjectPtr, tail: Seq<u8>)
    ensures
        enc_objectptr(o).len() == 10,
        objectptr_of(enc_objectptr(o) + tail) == o,
{
    lemma_be16(o.ot);
    lemma_be64(o.oid);
    let s = enc_objectptr(o) + tail;
    assert(s.subrange(2, 10) =~= be64(o.oid));
    assert(from_be16(s) == from_be16(be16(o.ot)));
}

pub proof fn lemma_timestamp(t: Timestamp, tail: Seq<u8>)
    ensures
        enc_timestamp(t).len() == 12,
        timestamp_of(enc_timestamp(t) + tail) == t,
{
    lemma_be64(t.secs as u64);
    lemma_be32(t.nanos);
    lemma_i64_u64(t.secs);
    let s = enc_timestamp(t) + tail;
    assert(s.subrange(8, 12) =~= be32(t.nanos));
    assert(from_be64(s) == from_be64(be64(t.secs as u64)));
}

/// Appends the ten bytes of an object pointer.
pub fn push_objectptr(out: &mut Vec<u8>, o: &ObjectPtr)
    ensures
        final(out)@ == old(out)@ + enc_objectptr(*o),
{
    push_u16(out, o.ot);
    push_u64(out, o.oid);
    assert(out@ =~= old(out)@ + enc_objectptr(*o));
}

/// Appends the twelve bytes of a timestamp.
pub fn push_timestamp(out: &mut Vec<u8>, t: &Timestamp)
    ensures
        final(out)@ == old(out)@ + enc_timestamp(*t),
{
    push_u64(out, #[verifier::truncate] (t.secs as u64));
    push_u32(out, t.nanos);
    assert(out@ =~= old(out)@ + enc_timestamp(*t));
}

/// Reads the object pointer at `pos`.
pub fn read_objectptr(s: &[u8], pos: usize) -> (r: ObjectPtr)
    requires
        pos + 10 <= s@.len(),
    ensures
        r == objectptr_of(rest(s@, pos as int)),
{
    let n = s.len();
    assert(pos + 2 <= n);
    let ot = read_u16(s, pos);
    let oid = read_u64(s, pos + 2);
    assert(rest(s@, pos + 2) =~= rest(s@, pos as int).subrange(2, s@.len() - pos));
    assert(from_be64(rest(s@, pos + 2)) == from_be64(rest(s@, pos as int).subrange(2, 10)));
    ObjectPtr { ot, oid }
}

/// Reads the timestamp at `pos`.
pub fn read_timestamp(s: &[u8], pos: usize) -> (r: Timestamp)
    requires
        pos + 12 <= s@.len(),
    ensures
        r == timestamp_of(rest(s@, pos as int)),
{
    let n = s.len();
    assert(pos + 8 <= n);
    let secs = read_u64(s, pos);
    let nanos = read_u32(s, pos + 8);
    assert(from_be32(rest(s@, pos + 8)) == from_be32(rest(s@, pos as int).subrange(8, 12)));
    Timestamp { secs: #[verifier::truncate] (secs as i64), nanos }
}


/// Size of a commit pointer record.
pub const COMMIT_PTR_SIZE: usize = 24;

/// Size of an index record.
pub const INDEX_ITEM_SIZE: usize = 64;

/// The fixed 24 bytes of a commit pointer: timestamp, object pointer,
/// sequence.
pub open spec fn enc_commitptr(c: CommitPtr) -> Seq<u8> {
    enc_timestamp(c.ts) + enc_objectptr(c.opr) + be16(c.seq)
}

/// The commit pointer held in the first 24 bytes of `s`.
pub open spec fn commitptr_of(s: Seq<u8>) -> CommitPtr {
    CommitPtr {
        ts: timestamp_of(s),
        opr: objectptr_of(s.subrange(12, 24)),
        seq: from_be16(s.subrange(22, 24)),
    }
}

/// The array of 32 bytes whose view is `s`.
pub open spec fn hash32(s: Seq<u8>) -> ContentHash {
    choose|a: [u8; 32]| a@ == s
}

pub proof fn lemma_hash32(h: ContentHash)
    ensures
        hash32(h@) == h,
{
    let a = hash32(h@);
    assert(a@ == h@);
    assert(a =~= h) by {
        assert forall|i: int| 0 <= i < 32 implies a[i] == h[i] by {
            assert(a@[i] == h@[i]);
        }
    }
}

/// The fixed 64 bytes of an index record: commit pointer, content length,
/// content hash.
pub open spec fn enc_index_item(it: CommitIndexItem) -> Seq<u8> {
    enc_commitptr(it.ptr) + be64(it.len) + it.hash@
}

/// The index record held in the first 64 bytes of `s`.
pub open spec fn index_item_of(s: Seq<u8>) -> CommitIndexItem {
    CommitIndexItem {
        ptr: commitptr_of(s),
        len: from_be64(s.subrange(24, 32)),
        hash: hash32(s.subrange(32, 64)),
    }
}

/// A commit pointer reads back from its 24 bytes.
pub proof fn lemma_commitptr(c: CommitPtr, tail: Seq<u8>)
    ensures
        enc_commitptr(c).len() == 24,
        commitptr_of(enc_commitptr(c) + tail) == c,
{
    let s = enc_commitptr(c) + tail;
    lemma_timestamp(c.ts, enc_objectptr(c.opr) + be16(c.seq) + tail);
    assert(s =~= enc_timestamp(c.ts) + (enc_objectptr(c.opr) + be16(c.seq) + tail));
    lemma_objectptr(c.opr, be16(c.seq));
    assert(s.subrange(12, 24) =~= enc_objectptr(c.opr) + be16(c.seq));
    lemma_be16(c.seq);
    assert(s.subrange(22, 24) =~= be16(c.seq));
}

/// An index record reads back from its 64 bytes.
pub proof fn lemma_index_item(it: CommitIndexItem, tail: Seq<u8>)
    ensures
        enc_index_item(it).len() == 64,
        index_item_of(enc_index_item(it) + tail) == it,
{
    let s = enc_index_item(it) + tail;
    lemma_commitptr(it.ptr, be64(it.len) + it.hash@ + tail);
    assert(s =~= enc_commitptr(it.ptr) + (be64(it.len) + it.hash@ + tail));
    lemma_be64(it.len);
    assert(s.subrange(24, 32) =~= be64(it.len));
    assert(s.subrange(32, 64) =~= it.hash@);
    lemma_hash32(it.hash);
}

impl CommitPtr {
    /// The 24 bytes of this pointer.
    pub fn to_bytes(&self) -> (r: Vec<u8>)
        ensures
            r@ == enc_commitptr(*self),
    {
        let mut out: Vec<u8> = Vec::new();
        push_commitptr(&mut out, self);
        assert(out@ =~= enc_commitptr(*self));
        out
    }

    /// The pointer held in 24 bytes.
    pub fn from_bytes(raw: &[u8]) -> (r: CommitPtr)
        requires
            raw@.len() == COMMIT_PTR_SIZE,
        ensures
            r == commitptr_of(raw@),
    {
        read_commitptr(raw, 0)
    }
}

/// Appends the 24 bytes of a commit pointer.
pub fn push_commitptr(out: &mut Vec<u8>, c: &CommitPtr)
    ensures
        final(out)@ == old(out)@ + enc_commitptr(*c),
{
    push_timestamp(out, &c.ts);
    push_objectptr(out, &c.opr);
    push_u16(out, c.seq);
    assert(out@ =~= old(out)@ + enc_commitptr(*c));
}

/// Reads the commit pointer at `pos`.
pub fn read_commitptr(s: &[u8], pos: usize) -> (r: CommitPtr)
    requires
        pos + 24 <= s@.len(),
    ensures
        r == commitptr_of(rest(s@, pos as int)),
{
    let n = s.len();
    let ts = read_timestamp(s, pos);
    let opr = read_objectptr(s, pos + 12);
    let seq = read_u16(s, pos + 22);
    assert(rest(s@, pos + 12).subrange(0, 10) =~= rest(s@, pos as int).subrange(12, 24).subrange(0, 10));
    assert(rest(s@, pos + 12).subrange(2, 10) =~= rest(s@, pos as int).subrange(12, 24).subrange(2, 10));
    assert(from_be16(rest(s@, pos + 22)) == from_be16(rest(s@, pos as int).subrange(22, 24)));
    assert(from_be64(rest(s@, pos + 12).subrange(2, 10)) == from_be64(rest(s@, pos as int).subrange(12, 24).subrange(2, 10)));
    assert(from_be16(rest(s@, pos + 12)) == from_be16(rest(s@, pos as int).subrange(12, 24)));
    CommitPtr { ts, opr, seq }
}

impl CommitIndexItem {
    /// The 64 bytes of this record.
    pub fn to_bytes(&self) -> (r: Vec<u8>)
        ensures
            r@ == enc_index_item(*self),
    {
        let mut out: Vec<u8> = Vec::new();
        push_commitptr(&mut out, &self.ptr);
        push_u64(&mut out, self.len);
        let mut i: usize = 0;
        while i < 32
            invariant
                i <= 32,
                out@ == enc_commitptr(self.ptr) + be64(self.len) + self.hash@.subrange(0, i as int),
            decreases 32 - i,
        {
            out.push(self.hash[i]);
            i = i + 1;
            assert(out@ =~= enc_commitptr(self.ptr) + be64(self.len) + self.hash@.subrange(0, i as int));
        }
        assert(self.hash@.subrange(0, 32) =~= self.hash@);
        out
    }

    /// The record held in 64 bytes.
    pub fn from_bytes(raw: &[u8]) -> (r: CommitIndexItem)
        requires
            raw@.len() == INDEX_ITEM_SIZE,
        ensures
            r == index_item_of(raw@),
    {
        let ptr = read_commitptr(raw, 0);
        let len = read_u64(raw, 24);
        let mut hash = [0u8; 32];
        let mut i: usize = 0;
        while i < 32
            invariant
                raw@.len() == 64,
                i <= 32,
                forall|j: int| 0 <= j < i ==> hash@[j] == raw@[32 + j],
            decreases 32 - i,
        {
            hash[i] = raw[32 + i];
            i = i + 1;
        }
        proof {
            assert(hash@ =~= raw@.subrange(32, 64));
            lemma_hash32(hash);
            assert(rest(raw@, 0) =~= raw@);
            assert(from_be64(rest(raw@, 24)) == from_be64(raw@.subrange(24, 32)));
        }
        CommitIndexItem { ptr, len, hash }
    }
}

} // verus!
