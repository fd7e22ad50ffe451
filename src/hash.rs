//! Content hashes: SHA-256 digests read as 256-bit big-endian numbers, and
//! the canonical byte encoding that records are hashed over.
//!
//! The encoding is canonical CBOR: each head takes the shortest form for its
//! argument (the argument itself below 24, else one, two, four or eight
//! big-endian bytes after it); an array's head is followed by its items.
use vstd::prelude::*;
use crate::u256::Uint256;

verus! {

/// The eight big-endian bytes of `x`.
pub open spec fn be8(x: u64) -> Seq<u8> {
    seq![
        (x >> 56u64) as u8,
        (x >> 48u64) as u8,
        (x >> 40u64) as u8,
        (x >> 32u64) as u8,
        (x >> 24u64) as u8,
        (x >> 16u64) as u8,
        (x >> 8u64) as u8,
        x as u8,
    ]
}

/// The eight little-endian bytes of `x`.
pub open spec fn le8(x: u64) -> Seq<u8> {
    seq![
        x as u8,
        (x >> 8u64) as u8,
        (x >> 16u64) as u8,
        (x >> 24u64) as u8,
        (x >> 32u64) as u8,
        (x >> 40u64) as u8,
        (x >> 48u64) as u8,
        (x >> 56u64) as u8,
    ]
}

/// The shortest CBOR head of a major type (0 to 7) with argument `n`.
pub open spec fn cbor_head(major: u8, n: u64) -> Seq<u8> {
    let base = (major * 32) as u8;
    if n < 24 {
        seq![(base + n) as u8]
    } else if n < 0x100 {
        seq![(base + 24) as u8, n as u8]
    } else if n < 0x1_0000 {
        seq![(base + 25) as u8, (n >> 8u64) as u8, n as u8]
    } else if n < 0x1_0000_0000 {
        seq![(base + 26) as u8, (n >> 24u64) as u8, (n >> 16u64) as u8, (n >> 8u64) as u8, n as u8]
    } else {
        seq![(base + 27) as u8] + be8(n)
    }
}

pub open spec fn cbor_uint(x: u64) -> Seq<u8> {
    cbor_head(0, x)
}

pub open spec fn cbor_array_head(n: u64) -> Seq<u8> {
    cbor_head(4, n)
}

/// A 256-bit number as an array of its four words, most significant first.
pub open spec fn cbor_u256(a: Uint256) -> Seq<u8> {
    cbor_array_head(4) + cbor_uint(a.w3) + cbor_uint(a.w2) + cbor_uint(a.w1) + cbor_uint(a.w0)
}

/// Appends the eight big-endian bytes of `x`.
pub(crate) fn push_be8(out: &mut Vec<u8>, x: u64)
    ensures
        final(out)@ == old(out)@ + be8(x),
{
    out.push((x >> 56u64) as u8);
    out.push((x >> 48u64) as u8);
    out.push((x >> 40u64) as u8);
    out.push((x >> 32u64) as u8);
    out.push((x >> 24u64) as u8);
    out.push((x >> 16u64) as u8);
    out.push((x >> 8u64) as u8);
    out.push(x as u8);
    assert(out@ =~= old(out)@ + be8(x));
}

/// Appends the shortest CBOR head of a major type with argument `n`.
pub fn push_head(out: &mut Vec<u8>, major: u8, n: u64)
    requires
        major < 8,
    ensures
        final(out)@ == old(out)@ + cbor_head(major, n),
{
    let base = major * 32;
    if n < 24 {
        out.push(base + n as u8);
    } else if n < 0x100 {
        out.push(base + 24);
        out.push(n as u8);
    } else if n < 0x1_0000 {
        out.push(base + 25);
        out.push((n >> 8u64) as u8);
        out.push(n as u8);
    } else if n < 0x1_0000_0000 {
        out.push(base + 26);
        out.push((n >> 24u64) as u8);
        out.push((n >> 16u64) as u8);
        out.push((n >> 8u64) as u8);
        out.push(n as u8);
    } else {
        out.push(base + 27);
        push_be8(out, n);
    }
    assert(out@ =~= old(out)@ + cbor_head(major, n));
}

pub fn push_uint(out: &mut Vec<u8>, x: u64)
    ensures
        final(out)@ == old(out)@ + cbor_uint(x),
{
    push_head(out, 0, x);
}

pub fn push_array_head(out: &mut Vec<u8>, n: u64)
    ensures
        final(out)@ == old(out)@ + cbor_array_head(n),
{
    push_head(out, 4, n);
}

pub fn push_u256(out: &mut Vec<u8>, a: &Uint256)
    ensures
        final(out)@ == old(out)@ + cbor_u256(*a),
{
    push_array_head(out, 4);
    push_uint(out, a.w3);
    push_uint(out, a.w2);
    push_uint(out, a.w1);
    push_uint(out, a.w0);
    assert(out@ =~= old(out)@ + cbor_u256(*a));
}

/// What `sha256::digest` returns for the bytes: the SHA-256 digest as
/// lowercase hex text.
pub uninterp spec fn sha256_hex(data: Seq<u8>) -> Seq<u8>;

pub open spec fn is_lower_hex_digit(c: u8) -> bool {
    (0x30 <= c && c <= 0x39) || (0x61 <= c && c <= 0x66)
}

/// Relies on `sha256::digest`, which returns `hex::encode` of the 32-byte
/// SHA-256 digest: 64 lowercase hex digits.
#[verifier::external_body]
fn sha256_digest_hex(data: &Vec<u8>) -> (r: Vec<u8>)
    ensures
        r@ == sha256_hex(data@),
        r@.len() == 64,
        forall|i: int| 0 <= i < 64 ==> is_lower_hex_digit(#[trigger] r@[i]),
{
    sha256::digest(data).into_bytes()
}

pub open spec fn hex_digit_value(c: u8) -> u64 {
    if c <= 0x39 {
        (c - 0x30) as u64
    } else {
        (c - 0x61 + 10) as u64
    }
}

/// The number that a run of hex digits writes, most significant first, kept
/// to 64 bits.
pub open spec fn hex_word(s: Seq<u8>) -> u64
    decreases s.len(),
{
    if s.len() == 0 {
        0
    } else {
        (hex_word(s.drop_last()) << 4u64) | hex_digit_value(s.last())
    }
}

fn digit_value(c: u8) -> (r: u64)
    requires
        is_lower_hex_digit(c),
    ensures
        r == hex_digit_value(c),
{
    if c <= 0x39 {
        (c - 0x30) as u64
    } else {
        (c - 0x61 + 10) as u64
    }
}

fn parse_word(h: &Vec<u8>, start: usize) -> (r: u64)
    requires
        start + 16 <= h@.len(),
        forall|i: int| 0 <= i < h@.len() ==> is_lower_hex_digit(#[trigger] h@[i]),
    ensures
        r == hex_word(h@.subrange(start as int, start + 16)),
{
    let n = h.len();
    let mut acc: u64 = 0;
    let mut i: usize = 0;
    while i < 16
        invariant
            0 <= i <= 16,
            n == h@.len(),
            start + 16 <= h@.len(),
            forall|k: int| 0 <= k < h@.len() ==> is_lower_hex_digit(#[trigger] h@[k]),
            acc == hex_word(h@.subrange(start as int, start + i)),
        decreases 16 - i,
    {
        assert(start + i < h@.len());
        let d = digit_value(h[start + i]);
        proof {
            let s = h@.subrange(start as int, start + i + 1);
            assert(s.drop_last() =~= h@.subrange(start as int, start + i));
        }
        acc = (acc << 4u64) | d;
        i = i + 1;
    }
    acc
}

/// A 256-bit content hash.
#[derive(Clone, Copy, Debug, PartialEq, Eq, Structural)]
pub struct Hash(pub Uint256);

/// The hash of some bytes: their SHA-256 digest read as a big-endian number.
pub open spec fn digest_hash(data: Seq<u8>) -> Hash {
    let h = sha256_hex(data);
    Hash(
        Uint256 {
            w3: hex_word(h.subrange(0, 16)),
            w2: hex_word(h.subrange(16, 32)),
            w1: hex_word(h.subrange(32, 48)),
            w0: hex_word(h.subrange(48, 64)),
        },
    )
}

/// The 32 little-endian bytes of a hash, the message that input signatures sign.
pub open spec fn hash_le_bytes(h: Hash) -> Seq<u8> {
    le8(h.0.w0) + le8(h.0.w1) + le8(h.0.w2) + le8(h.0.w3)
}

pub open spec fn zero_hash() -> Hash {
    Hash(Uint256 { w0: 0, w1: 0, w2: 0, w3: 0 })
}

impl Hash {
    /// Hashes the canonical encoding of a value.
    pub fn hash(data: &Vec<u8>) -> (r: Hash)
        ensures
            r == digest_hash(data@),
    {
        let h = sha256_digest_hex(data);
        let w3 = parse_word(&h, 0);
        let w2 = parse_word(&h, 16);
        let w1 = parse_word(&h, 32);
        let w0 = parse_word(&h, 48);
        Hash(Uint256 { w0, w1, w2, w3 })
    }

    /// Whether the hash satisfies proof of work for a target.
    pub fn matches_target(&self, target: &Uint256) -> (r: bool)
        ensures
            r == (self.0.value() <= target.value()),
    {
        crate::u256::le(&self.0, target)
    }

    /// The hash that marks the predecessor of the first block.
    pub fn zero() -> (r: Hash)
        ensures
            r == zero_hash(),
    {
        Hash(Uint256 { w0: 0, w1: 0, w2: 0, w3: 0 })
    }

    /// The little-endian bytes of the hash.
    pub fn as_bytes(&self) -> (r: Vec<u8>)
        ensures
            r@ == hash_le_bytes(*self),
    {
        let mut out: Vec<u8> = Vec::new();
        push_le8(&mut out, self.0.w0);
        push_le8(&mut out, self.0.w1);
        push_le8(&mut out, self.0.w2);
        push_le8(&mut out, self.0.w3);
        assert(out@ =~= hash_le_bytes(*self));
        out
    }
}

pub(crate) fn push_le8(out: &mut Vec<u8>, x: u64)
    ensures
        final(out)@ == old(out)@ + le8(x),
{
    out.push(x as u8);
    out.push((x >> 8u64) as u8);
    out.push((x >> 16u64) as u8);
    out.push((x >> 24u64) as u8);
    out.push((x >> 32u64) as u8);
    out.push((x >> 40u64) as u8);
    out.push((x >> 48u64) as u8);
    out.push((x >> 56u64) as u8);
    assert(out@ =~= old(out)@ + le8(x));
}

} // verus!
