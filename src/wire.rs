//! Fixed-width big-endian integers, zigzag, tag nibbles and the
//! small-value-inlined integer scheme shared by the value codec.
use vstd::prelude::*;

verus! {

/// Big-endian bytes of a 16-bit integer.
pub open spec fn be16(n: u16) -> Seq<u8> {
    seq![(n >> 8u16) as u8, n as u8]
}

/// The 16-bit integer held big-endian in the first two bytes of `s`.
pub open spec fn from_be16(s: Seq<u8>) -> u16 {
    ((s[0] as u16) << 8u16) | (s[1] as u16)
}

/// Big-endian bytes of a 32-bit integer.
pub open spec fn be32(n: u32) -> Seq<u8> {
    seq![(n >> 24u32) as u8, (n >> 16u32) as u8, (n >> 8u32) as u8, n as u8]
}

/// The 32-bit integer held big-endian in the first four bytes of `s`.
pub open spec fn from_be32(s: Seq<u8>) -> u32 {
    ((s[0] as u32) << 24u32) | ((s[1] as u32) << 16u32) | ((s[2] as u32) << 8u32) | (s[3] as u32)
}

/// Big-endian bytes of a 64-bit integer.
pub open spec fn be64(n: u64) -> Seq<u8> {
    seq![
        (n >> 56u64) as u8,
        (n >> 48u64) as u8,
        (n >> 40u64) as u8,
        (n >> 32u64) as u8,
        (n >> 24u64) as u8,
        (n >> 16u64) as u8,
        (n >> 8u64) as u8,
        n as u8,
    ]
}

/// The 64-bit integer held big-endian in the first eight bytes of `s`.
pub open spec fn from_be64(s: Seq<u8>) -> u64 {
    ((s[0] as u64) << 56u64) | ((s[1] as u64) << 48u64) | ((s[2] as u64) << 40u64) | ((s[3] as u64)
        << 32u64) | ((s[4] as u64) << 24u64) | ((s[5] as u64) << 16u64) | ((s[6] as u64) << 8u64)
        | (s[7] as u64)
}

pub proof fn lemma_be16(n: u16)
    ensures
        be16(n).len() == 2,
        from_be16(be16(n)) == n,
{
    let b0 = (n >> 8u16) as u8;
    let b1 = n as u8;
    assert((((b0 as u16) << 8u16) | (b1 as u16)) == n) by (bit_vector)
        requires
            b0 == (n >> 8u16) as u8,
            b1 == n as u8,
    ;
}

pub proof fn lemma_be32(n: u32)
    ensures
        be32(n).len() == 4,
        from_be32(be32(n)) == n,
{
    let b0 = (n >> 24u32) as u8;
    let b1 = (n >> 16u32) as u8;
    let b2 = (n >> 8u32) as u8;
    let b3 = n as u8;
    assert((((b0 as u32) << 24u32) | ((b1 as u32) << 16u32) | ((b2 as u32) << 8u32) | (b3 as u32))
        == n) by (bit_vector)
        requires
            b0 == (n >> 24u32) as u8,
            b1 == (n >> 16u32) as u8,
            b2 == (n >> 8u32) as u8,
            b3 == n as u8,
    ;
}

pub proof fn lemma_be64(n: u64)
    ensures
        be64(n).len() == 8,
        from_be64(be64(n)) == n,
{
    let b0 = (n >> 56u64) as u8;
    let b1 = (n >> 48u64) as u8;
    let b2 = (n >> 40u64) as u8;
    let b3 = (n >> 32u64) as u8;
    let b4 = (n >> 24u64) as u8;
    let b5 = (n >> 16u64) as u8;
    let b6 = (n >> 8u64) as u8;
    let b7 = n as u8;
    assert(((b0 as u64) << 56u64) | ((b1 as u64) << 48u64) | ((b2 as u64) << 40u64) | ((b3 as u64)
        << 32u64) | ((b4 as u64) << 24u64) | ((b5 as u64) << 16u64) | ((b6 as u64) << 8u64) | (b7 as u64)
        == n) by (bit_vector)
        requires
            b0 == (n >> 56u64) as u8,
            b1 == (n >> 48u64) as u8,
            b2 == (n >> 40u64) as u8,
            b3 == (n >> 32u64) as u8,
            b4 == (n >> 24u64) as u8,
            b5 == (n >> 16u64) as u8,
            b6 == (n >> 8u64) as u8,
            b7 == n as u8,
    ;
}

pub proof fn lemma_i64_u64(n: i64)
    ensures
        (n as u64) as i64 == n,
{
    assert((n as u64) as i64 == n) by (bit_vector);
}

/// Appends the big-endian bytes of `n`.
pub fn push_u16(out: &mut Vec<u8>, n: u16)
    ensures
        final(out)@ == old(out)@ + be16(n),
{
    out.push(#[verifier::truncate] ((n >> 8u16) as u8));
    out.push(#[verifier::truncate] (n as u8));
    assert(out@ =~= old(out)@ + be16(n));
}

/// Appends the big-endian bytes of `n`.
pub fn push_u32(out: &mut Vec<u8>, n: u32)
    ensures
        final(out)@ == old(out)@ + be32(n),
{
    out.push(#[verifier::truncate] ((n >> 24u32) as u8));
    out.push(#[verifier::truncate] ((n >> 16u32) as u8));
    out.push(#[verifier::truncate] ((n >> 8u32) as u8));
    out.push(#[verifier::truncate] (n as u8));
    assert(out@ =~= old(out)@ + be32(n));
}

/// Appends the big-endian bytes of `n`.
pub fn push_u64(out: &mut Vec<u8>, n: u64)
    ensures
        final(out)@ == old(out)@ + be64(n),
{
    out.push(#[verifier::truncate] ((n >> 56u64) as u8));
    out.push(#[verifier::truncate] ((n >> 48u64) as u8));
    out.push(#[verifier::truncate] ((n >> 40u64) as u8));
    out.push(#[verifier::truncate] ((n >> 32u64) as u8));
    out.push(#[verifier::truncate] ((n >> 24u64) as u8));
    out.push(#[verifier::truncate] ((n >> 16u64) as u8));
    out.push(#[verifier::truncate] ((n >> 8u64) as u8));
    out.push(#[verifier::truncate] (n as u8));
    assert(out@ =~= old(out)@ + be64(n));
}

/// Reads a big-endian 16-bit integer at `pos`.
pub fn read_u16(s: &[u8], pos: usize) -> (r: u16)
    requires
        pos + 2 <= s@.len(),
    ensures
        r == from_be16(s@.subrange(pos as int, s@.len() as int)),
{
    ((s[pos] as u16) << 8u16) | (s[pos + 1] as u16)
}

/// Reads a big-endian 32-bit integer at `pos`.
pub fn read_u32(s: &[u8], pos: usize) -> (r: u32)
    requires
        pos + 4 <= s@.len(),
    ensures
        r == from_be32(s@.subrange(pos as int, s@.len() as int)),
{
    ((s[pos] as u32) << 24u32) | ((s[pos + 1] as u32) << 16u32) | ((s[pos + 2] as u32) << 8u32) | (
    s[pos + 3] as u32)
}

/// Reads a big-endian 64-bit integer at `pos`.
pub fn read_u64(s: &[u8], pos: usize) -> (r: u64)
    requires
        pos + 8 <= s@.len(),
    ensures
        r == from_be64(s@.subrange(pos as int, s@.len() as int)),
{
    ((s[pos] as u64) << 56u64) | ((s[pos + 1] as u64) << 48u64) | ((s[pos + 2] as u64) << 40u64) | ((
    s[pos + 3] as u64) << 32u64) | ((s[pos + 4] as u64) << 24u64) | ((s[pos + 5] as u64) << 16u64)
        | ((s[pos + 6] as u64) << 8u64) | (s[pos + 7] as u64)
}


/// What went wrong while decoding a value or a type.
#[derive(Clone, Copy, Debug, PartialEq, Eq)]
pub enum DecodeError {
    /// A float whose low tag asks for more than eight bytes.
    FloatL4(u8),
    /// Fewer bytes remain than the next field needs.
    TooShort,
    /// Bytes left over after a complete value: their count.
    TooLong(usize),
    /// A string payload that is not UTF-8.
    Utf8,
    /// A type tag byte that names no type.
    Tag(u8),
    /// A value's high nibble that names no category.
    HTag(u8),
    /// A low nibble that names no inline kind.
    LTag(u8),
}

/// The bytes of `s` from `pos` on.
pub open spec fn rest(s: Seq<u8>, pos: int) -> Seq<u8> {
    s.subrange(pos, s.len() as int)
}

pub broadcast proof fn lemma_rest_rest(s: Seq<u8>, a: int, k: int)
    requires
        0 <= a,
        0 <= k,
        a + k <= s.len(),
    ensures
        #[trigger] rest(rest(s, a), k) == rest(s, a + k),
{
    assert(rest(rest(s, a), k) =~= rest(s, a + k));
}

/// The tag byte made of a high and a low nibble.
pub open spec fn tag_byte(h: u8, l: u8) -> u8 {
    (h * 16 + l) as u8
}

/// Builds a tag byte from its two nibbles.
pub fn make_tag(h: u8, l: u8) -> (r: u8)
    requires
        h < 16,
        l < 16,
    ensures
        r == tag_byte(h, l),
        r / 16 == h,
        r % 16 == l,
{
    h * 16 + l
}

/// Zigzag: small magnitudes of either sign become small unsigned numbers.
pub open spec fn zigzag(n: i64) -> u64 {
    ((n as u64) << 1u64) ^ ((n >> 63i64) as u64)
}

/// The inverse of `zigzag`.
pub open spec fn unzigzag(u: u64) -> i64 {
    if u & 1u64 == 0 {
        (u >> 1u64) as i64
    } else {
        !((u >> 1u64) as i64)
    }
}

pub proof fn lemma_zigzag(n: i64)
    ensures
        unzigzag(zigzag(n)) == n,
{
    let u = zigzag(n);
    assert((u & 1u64 == 0) ==> ((u >> 1u64) as i64) == n) by (bit_vector)
        requires
            u == ((n as u64) << 1u64) ^ ((n >> 63i64) as u64),
    ;
    assert((u & 1u64 != 0) ==> !((u >> 1u64) as i64) == n) by (bit_vector)
        requires
            u == ((n as u64) << 1u64) ^ ((n >> 63i64) as u64),
    ;
}

pub fn zigzag_encode(n: i64) -> (r: u64)
    ensures
        r == zigzag(n),
{
    (#[verifier::truncate] (n as u64) << 1u64) ^ (#[verifier::truncate] ((n >> 63i64) as u64))
}

pub fn zigzag_decode(u: u64) -> (r: i64)
    ensures
        r == unzigzag(u),
{
    if u & 1u64 == 0 {
        #[verifier::truncate] ((u >> 1u64) as i64)
    } else {
        !(#[verifier::truncate] ((u >> 1u64) as i64))
    }
}

/// The low nibble that stands for `u`: `u` itself when it is below 12, else
/// the marker of the smallest of 1, 2, 4 or 8 extra bytes that holds it.
pub open spec fn uvar_low(u: u64) -> u8 {
    if u < 12 {
        u as u8
    } else if u <= 0xff {
        12
    } else if u <= 0xffff {
        13
    } else if u <= 0xffff_ffff {
        14
    } else {
        15
    }
}

/// The extra bytes that follow the tag byte for `u`.
pub open spec fn uvar_ext(u: u64) -> Seq<u8> {
    if u < 12 {
        seq![]
    } else if u <= 0xff {
        seq![u as u8]
    } else if u <= 0xffff {
        be16(u as u16)
    } else if u <= 0xffff_ffff {
        be32(u as u32)
    } else {
        be64(u)
    }
}

/// A tag byte with high nibble `h` carrying `u` by the inlined scheme, with
/// its extra bytes.
pub open spec fn enc_head(h: u8, u: u64) -> Seq<u8> {
    seq![tag_byte(h, uvar_low(u))] + uvar_ext(u)
}

/// Reads the integer that low nibble `l` announces from the bytes after the
/// tag: the integer and how many bytes it took.
pub open spec fn parse_uvar(l: u8, s: Seq<u8>) -> Result<(u64, nat), DecodeError> {
    if l < 12 {
        Ok((l as u64, 0))
    } else if l == 12 {
        if s.len() < 1 {
            Err(DecodeError::TooShort)
        } else {
            Ok((s[0] as u64, 1))
        }
    } else if l == 13 {
        if s.len() < 2 {
            Err(DecodeError::TooShort)
        } else {
            Ok((from_be16(s) as u64, 2))
        }
    } else if l == 14 {
        if s.len() < 4 {
            Err(DecodeError::TooShort)
        } else {
            Ok((from_be32(s) as u64, 4))
        }
    } else {
        if s.len() < 8 {
            Err(DecodeError::TooShort)
        } else {
            Ok((from_be64(s), 8))
        }
    }
}

pub proof fn lemma_uvar(u: u64, rest: Seq<u8>)
    ensures
        uvar_low(u) < 16,
        parse_uvar(uvar_low(u), uvar_ext(u) + rest) == Ok::<(u64, nat), DecodeError>(
            (u, uvar_ext(u).len()),
        ),
{
    let s = uvar_ext(u) + rest;
    if u < 12 {
    } else if u <= 0xff {
        assert((u as u8) as u64 == u) by (bit_vector)
            requires
                u <= 0xff,
        ;
        assert(s[0] == u as u8);
    } else if u <= 0xffff {
        lemma_be16(u as u16);
        assert((u as u16) as u64 == u) by (bit_vector)
            requires
                u <= 0xffff,
        ;
        assert(from_be16(s) == from_be16(be16(u as u16)));
    } else if u <= 0xffff_ffff {
        lemma_be32(u as u32);
        assert((u as u32) as u64 == u) by (bit_vector)
            requires
                u <= 0xffff_ffff,
        ;
        assert(from_be32(s) == from_be32(be32(u as u32)));
    } else {
        lemma_be64(u);
        assert(from_be64(s) == from_be64(be64(u)));
    }
}

/// Appends a tag byte with high nibble `h` and the integer `u` by the inlined
/// scheme.
pub fn push_head(out: &mut Vec<u8>, h: u8, u: u64)
    requires
        h < 16,
    ensures
        final(out)@ == old(out)@ + enc_head(h, u),
{
    if u < 12 {
        let t = make_tag(h, u as u8);
        out.push(t);
    } else if u <= 0xff {
        let t = make_tag(h, 12);
        out.push(t);
        out.push(u as u8);
    } else if u <= 0xffff {
        let t = make_tag(h, 13);
        out.push(t);
        push_u16(out, u as u16);
    } else if u <= 0xffff_ffff {
        let t = make_tag(h, 14);
        out.push(t);
        push_u32(out, u as u32);
    } else {
        let t = make_tag(h, 15);
        out.push(t);
        push_u64(out, u);
    }
    assert(out@ =~= old(out)@ + enc_head(h, u));
}

/// Reads at `pos` the integer that low nibble `l` announces.
pub fn read_uvar(s: &[u8], pos: usize, l: u8) -> (r: Result<(u64, usize), DecodeError>)
    requires
        pos <= s@.len(),
    ensures
        match r {
            Ok((u, p)) => pos <= p <= s@.len() && parse_uvar(l, rest(s@, pos as int)) == Ok::<
                (u64, nat),
                DecodeError,
            >((u, (p - pos) as nat)),
            Err(e) => parse_uvar(l, rest(s@, pos as int)) == Err::<(u64, nat), DecodeError>(e),
        },
{
    let avail = s.len() - pos;
    if l < 12 {
        Ok((l as u64, pos))
    } else if l == 12 {
        if avail < 1 {
            Err(DecodeError::TooShort)
        } else {
            Ok((s[pos] as u64, pos + 1))
        }
    } else if l == 13 {
        if avail < 2 {
            Err(DecodeError::TooShort)
        } else {
            Ok((read_u16(s, pos) as u64, pos + 2))
        }
    } else if l == 14 {
        if avail < 4 {
            Err(DecodeError::TooShort)
        } else {
            Ok((read_u32(s, pos) as u64, pos + 4))
        }
    } else {
        if avail < 8 {
            Err(DecodeError::TooShort)
        } else {
            Ok((read_u64(s, pos), pos + 8))
        }
    }
}

/// How many leading bytes of `s` remain once its trailing zero bytes are
/// dropped.
pub open spec fn kept_len(s: Seq<u8>) -> nat
    decreases s.len(),
{
    if s.len() == 0 {
        0
    } else if s.last() != 0 {
        s.len()
    } else {
        kept_len(s.drop_last())
    }
}

/// The number of trailing zero bytes of `s`.
pub open spec fn trailing_zero_bytes(s: Seq<u8>) -> nat {
    (s.len() - kept_len(s)) as nat
}

pub proof fn lemma_kept_len(s: Seq<u8>)
    ensures
        kept_len(s) <= s.len(),
        forall|i: int| kept_len(s) <= i < s.len() ==> s[i] == 0,
        kept_len(s) > 0 ==> s[kept_len(s) - 1] != 0,
    decreases s.len(),
{
    if s.len() > 0 && s.last() == 0 {
        lemma_kept_len(s.drop_last());
        assert forall|i: int| kept_len(s) <= i < s.len() implies s[i] == 0 by {
            if i < s.len() - 1 {
                assert(s[i] == s.drop_last()[i]);
            }
        }
    }
}

/// `n` zero bytes.
pub open spec fn zeros(n: nat) -> Seq<u8> {
    Seq::new(n, |i: int| 0u8)
}

/// The bytes stored for a float's bit pattern: its big-endian form without
/// the trailing zero bytes.
pub open spec fn float_bytes(f: u64) -> Seq<u8> {
    be64(f).subrange(0, kept_len(be64(f)) as int)
}

/// Reads a float's bit pattern from the bytes after its tag, whose low
/// nibble `l` is the count of stored bytes.
pub open spec fn parse_float(l: u8, s: Seq<u8>) -> Result<(u64, nat), DecodeError> {
    if l > 8 {
        Err(DecodeError::FloatL4(l))
    } else if s.len() < l {
        Err(DecodeError::TooShort)
    } else {
        Ok((from_be64(s.subrange(0, l as int) + zeros((8 - l) as nat)), l as nat))
    }
}

pub proof fn lemma_float(f: u64, rest: Seq<u8>)
    ensures
        float_bytes(f).len() <= 8,
        float_bytes(f).len() == 8 - trailing_zero_bytes(be64(f)),
        parse_float(float_bytes(f).len() as u8, float_bytes(f) + rest) == Ok::<(u64, nat), DecodeError>(
            (f, float_bytes(f).len()),
        ),
{
    let b = be64(f);
    lemma_be64(f);
    lemma_kept_len(b);
    let k = kept_len(b);
    let s = float_bytes(f) + rest;
    assert(s.subrange(0, k as int) + zeros((8 - k) as nat) =~= b);
}

/// Appends a float's tag byte, with high nibble `h`, and its stored bytes.
pub fn push_float(out: &mut Vec<u8>, h: u8, f: u64)
    requires
        h < 16,
    ensures
        final(out)@ == old(out)@ + seq![tag_byte(h, float_bytes(f).len() as u8)] + float_bytes(f),
{
    let mut b: Vec<u8> = Vec::new();
    push_u64(&mut b, f);
    assert(b@ =~= be64(f));
    assert(be64(f).subrange(0, 8) =~= be64(f));
    let mut k: usize = 8;
    while k > 0 && b[k - 1] == 0
        invariant
            b@ == be64(f),
            k <= 8,
            kept_len(be64(f)) == kept_len(be64(f).subrange(0, k as int)),
        decreases k,
    {
        assert(be64(f).subrange(0, k as int).drop_last() =~= be64(f).subrange(0, k - 1));
        k = k - 1;
    }
    assert(kept_len(be64(f)) == k) by {
        if k > 0 {
            assert(be64(f).subrange(0, k as int).last() != 0);
        }
    }
    let t = make_tag(h, k as u8);
    out.push(t);
    let mut i: usize = 0;
    while i < k
        invariant
            i <= k,
            k == kept_len(be64(f)),
            k <= 8,
            b@ == be64(f),
            out@ == old(out)@ + seq![t] + be64(f).subrange(0, i as int),
        decreases k - i,
    {
        out.push(b[i]);
        i = i + 1;
        assert(out@ =~= old(out)@ + seq![t] + be64(f).subrange(0, i as int));
    }
}

/// Reads at `pos` a float's stored bytes, whose count is the low nibble `l`.
pub fn read_float(s: &[u8], pos: usize, l: u8) -> (r: Result<(u64, usize), DecodeError>)
    requires
        pos <= s@.len(),
    ensures
        match r {
            Ok((f, p)) => pos <= p <= s@.len() && parse_float(l, rest(s@, pos as int)) == Ok::<
                (u64, nat),
                DecodeError,
            >((f, (p - pos) as nat)),
            Err(e) => parse_float(l, rest(s@, pos as int)) == Err::<(u64, nat), DecodeError>(e),
        },
{
    if l > 8 {
        return Err(DecodeError::FloatL4(l));
    }
    if s.len() - pos < l as usize {
        return Err(DecodeError::TooShort);
    }
    let n = s.len();
    let mut b: Vec<u8> = Vec::new();
    let mut i: usize = 0;
    while i < 8
        invariant
            n == s@.len(),
            i <= 8,
            l <= 8,
            pos + l <= s@.len(),
            b@.len() == i,
            forall|j: int| 0 <= j < i ==> b@[j] == (rest(s@, pos as int).subrange(0, l as int)
                + zeros((8 - l) as nat))[j],
        decreases 8 - i,
    {
        if i < l as usize {
            assert(pos + i < s@.len());
            b.push(s[pos + i]);
        } else {
            b.push(0);
        }
        i = i + 1;
    }
    assert(b@ =~= rest(s@, pos as int).subrange(0, l as int) + zeros((8 - l) as nat));
    let f = read_u64(b.as_slice(), 0);
    assert(b@.subrange(0, 8) =~= b@);
    Ok((f, pos + l as usize))
}


/// Appends the bytes of `b`.
pub fn push_bytes(out: &mut Vec<u8>, b: &[u8])
    ensures
        final(out)@ == old(out)@ + b@,
{
    let mut i: usize = 0;
    while i < b.len()
        invariant
            i <= b@.len(),
            out@ == old(out)@ + b@.subrange(0, i as int),
        decreases b@.len() - i,
    {
        out.push(b[i]);
        i = i + 1;
        assert(out@ =~= old(out)@ + b@.subrange(0, i as int));
    }
    assert(b@.subrange(0, b@.len() as int) =~= b@);
}

} // verus!
