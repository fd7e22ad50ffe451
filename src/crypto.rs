//! ECDSA over secp256k1: keys and signatures as plain numbers, with the
//! signing and verification of the `ecdsa` crate behind three wrappers.
use vstd::prelude::*;
use ecdsa::signature::{Signer, Verifier};
use ecdsa::{SigningKey, VerifyingKey};
use k256::Secp256k1;
use spki::der::pem::LineEnding;
use spki::{DecodePublicKey, EncodePublicKey};
use k256::elliptic_curve::rand_core::OsRng;
use crate::hash::{be8, hash_le_bytes};
use crate::u256::Uint256;

verus! {

/// The 32 big-endian bytes of a 256-bit number.
pub open spec fn be32(a: Uint256) -> Seq<u8> {
    be8(a.w3) + be8(a.w2) + be8(a.w1) + be8(a.w0)
}

/// The 64-bit number that eight big-endian bytes write.
pub open spec fn be_word(s: Seq<u8>) -> u64 {
    ((s[0] as u64) << 56u64) | ((s[1] as u64) << 48u64) | ((s[2] as u64) << 40u64) | ((
    s[3] as u64) << 32u64) | ((s[4] as u64) << 24u64) | ((s[5] as u64) << 16u64) | ((
    s[6] as u64) << 8u64) | (s[7] as u64)
}

/// The 256-bit number that the 32 big-endian bytes of `s` at `at` write.
pub open spec fn be_u256(s: Seq<u8>, at: int) -> Uint256 {
    Uint256 {
        w3: be_word(s.subrange(at, at + 8)),
        w2: be_word(s.subrange(at + 8, at + 16)),
        w1: be_word(s.subrange(at + 16, at + 24)),
        w0: be_word(s.subrange(at + 24, at + 32)),
    }
}

proof fn lemma_be8_be_word(s: Seq<u8>)
    requires
        s.len() == 8,
    ensures
        be8(be_word(s)) == s,
{
    let (b0, b1, b2, b3, b4, b5, b6, b7) = (s[0], s[1], s[2], s[3], s[4], s[5], s[6], s[7]);
    let x = be_word(s);
    assert(x == ((b0 as u64) << 56u64) | ((b1 as u64) << 48u64) | ((b2 as u64) << 40u64) | ((
    b3 as u64) << 32u64) | ((b4 as u64) << 24u64) | ((b5 as u64) << 16u64) | ((b6 as u64)
        << 8u64) | (b7 as u64));
    assert((x >> 56u64) as u8 == b0 && (x >> 48u64) as u8 == b1 && (x >> 40u64) as u8 == b2 && (x
        >> 32u64) as u8 == b3 && (x >> 24u64) as u8 == b4 && (x >> 16u64) as u8 == b5 && (x
        >> 8u64) as u8 == b6 && x as u8 == b7) by (bit_vector)
        requires
            x == ((b0 as u64) << 56u64) | ((b1 as u64) << 48u64) | ((b2 as u64) << 40u64) | ((
            b3 as u64) << 32u64) | ((b4 as u64) << 24u64) | ((b5 as u64) << 16u64) | ((b6 as u64)
                << 8u64) | (b7 as u64),
    ;
    assert(be8(x) =~= s);
}

/// Reading 32 bytes as a number and writing it back gives the bytes.
proof fn lemma_be32_round_trip(b: Seq<u8>)
    requires
        b.len() == 32,
    ensures
        be32(be_u256(b, 0)) == b,
{
    lemma_be8_be_word(b.subrange(0, 8));
    lemma_be8_be_word(b.subrange(8, 16));
    lemma_be8_be_word(b.subrange(16, 24));
    lemma_be8_be_word(b.subrange(24, 32));
    assert(be32(be_u256(b, 0)) =~= b);
}

fn push_be32(out: &mut Vec<u8>, a: &Uint256)
    ensures
        final(out)@ == old(out)@ + be32(*a),
{
    crate::hash::push_be8(out, a.w3);
    crate::hash::push_be8(out, a.w2);
    crate::hash::push_be8(out, a.w1);
    crate::hash::push_be8(out, a.w0);
    assert(out@ =~= old(out)@ + be32(*a));
}

pub(crate) fn read_be_word(s: &Vec<u8>, at: usize) -> (r: u64)
    requires
        at + 8 <= s@.len(),
    ensures
        r == be_word(s@.subrange(at as int, at + 8)),
{
    let n = s.len();
    assert(at + 8 <= n);
    let ghost w = s@.subrange(at as int, at + 8);
    assert(w[0] == s@[at as int] && w[1] == s@[at + 1] && w[2] == s@[at + 2] && w[3] == s@[at
        + 3] && w[4] == s@[at + 4] && w[5] == s@[at + 5] && w[6] == s@[at + 6] && w[7] == s@[at
        + 7]);
    ((s[at] as u64) << 56u64) | ((s[at + 1] as u64) << 48u64) | ((s[at + 2] as u64) << 40u64) | ((
    s[at + 3] as u64) << 32u64) | ((s[at + 4] as u64) << 24u64) | ((s[at + 5] as u64) << 16u64)
        | ((s[at + 6] as u64) << 8u64) | (s[at + 7] as u64)
}

fn read_be_u256(s: &Vec<u8>, at: usize) -> (r: Uint256)
    requires
        at + 32 <= s@.len(),
    ensures
        r == be_u256(s@, at as int),
{
    let n = s.len();
    assert(at + 32 <= n);
    Uint256 {
        w3: read_be_word(s, at),
        w2: read_be_word(s, at + 8),
        w1: read_be_word(s, at + 16),
        w0: read_be_word(s, at + 24),
    }
}

/// A public key, held as its compressed SEC1 point: the prefix byte (2 or 3,
/// for the parity of `y`) and the coordinate `x`.
#[derive(Clone, Copy, Debug, PartialEq, Eq, Structural)]
pub struct PublicKey {
    pub prefix: u8,
    pub x: Uint256,
}

/// The 33 bytes of the compressed SEC1 encoding of a public key.
pub open spec fn sec1_bytes(k: PublicKey) -> Seq<u8> {
    seq![k.prefix] + be32(k.x)
}

/// A signature, held as its two scalars.
#[derive(Clone, Copy, Debug, PartialEq, Eq, Structural)]
pub struct Signature {
    pub r: Uint256,
    pub s: Uint256,
}

/// The 64 bytes of a signature: `r` then `s`, each big-endian.
pub open spec fn signature_bytes(sig: Signature) -> Seq<u8> {
    be32(sig.r) + be32(sig.s)
}

/// A private key, held as its secret scalar.
#[derive(Clone, Copy, Debug, PartialEq, Eq, Structural)]
pub struct PrivateKey {
    pub scalar: Uint256,
}

/// Whether `ecdsa` accepts the signature of the message under the public
/// key, both given as bytes.
pub uninterp spec fn ecdsa_verifies(key: Seq<u8>, message: Seq<u8>, signature: Seq<u8>) -> bool;

/// The deterministic (RFC 6979) signature that `ecdsa` makes of the message
/// with the secret scalar, or `None` where it refuses the scalar.
pub uninterp spec fn ecdsa_signature(secret: Seq<u8>, message: Seq<u8>) -> Option<Seq<u8>>;

/// The compressed public key of a secret scalar, or `None` where `ecdsa`
/// refuses the scalar.
pub uninterp spec fn ecdsa_public_key(secret: Seq<u8>) -> Option<Seq<u8>>;

/// Relies on `VerifyingKey::<Secp256k1>::verify` (SHA-256 of the message, then
/// ECDSA verification); a key or signature that does not parse does not verify.
#[verifier::external_body]
fn verify_bytes(key: &Vec<u8>, message: &Vec<u8>, signature: &Vec<u8>) -> (r: bool)
    ensures
        r == ecdsa_verifies(key@, message@, signature@),
{
    match (
        VerifyingKey::<Secp256k1>::from_sec1_bytes(key),
        ecdsa::Signature::<Secp256k1>::from_slice(signature),
    ) {
        (Ok(k), Ok(s)) => k.verify(message, &s).is_ok(),
        _ => false,
    }
}

/// Relies on `SigningKey::<Secp256k1>::try_sign`, which signs with a nonce
/// derived from the key and the message (RFC 6979) and gives 64 bytes.
#[verifier::external_body]
fn sign_bytes(secret: &Vec<u8>, message: &Vec<u8>) -> (r: Option<Vec<u8>>)
    ensures
        match r {
            Some(v) => v@.len() == 64 && ecdsa_signature(secret@, message@) == Some(v@),
            None => ecdsa_signature(secret@, message@) is None,
        },
{
    let key = SigningKey::<Secp256k1>::from_slice(secret).ok()?;
    let sig: ecdsa::Signature<Secp256k1> = key.try_sign(message).ok()?;
    Some(sig.to_bytes().to_vec())
}

/// Relies on `SigningKey::verifying_key` and the compressed SEC1 encoding of
/// the point, 33 bytes.
#[verifier::external_body]
fn public_key_bytes(secret: &Vec<u8>) -> (r: Option<Vec<u8>>)
    ensures
        match r {
            Some(v) => v@.len() == 33 && ecdsa_public_key(secret@) == Some(v@),
            None => ecdsa_public_key(secret@) is None,
        },
{
    let key = SigningKey::<Secp256k1>::from_slice(secret).ok()?;
    Some(key.verifying_key().to_encoded_point(true).as_bytes().to_vec())
}

/// Relies on `SigningKey::random` with the operating system's generator: a
/// non-zero scalar below the group order, as 32 bytes, which
/// `SigningKey::from_slice` accepts.
#[verifier::external_body]
fn random_secret() -> (r: Vec<u8>)
    ensures
        r@.len() == 32,
        ecdsa_public_key(r@) is Some,
{
    SigningKey::<Secp256k1>::random(&mut OsRng).to_bytes().to_vec()
}

/// The PEM SubjectPublicKeyInfo text of a compressed key, or `None` where the
/// bytes are no point of the curve.
pub uninterp spec fn pem_of_key(sec1: Seq<u8>) -> Option<Seq<char>>;

/// The compressed key that a PEM SubjectPublicKeyInfo text holds, or `None`
/// where the text holds none.
pub uninterp spec fn key_of_pem(text: Seq<char>) -> Option<Seq<u8>>;

/// Relies on `spki::EncodePublicKey::to_public_key_pem` of the key that
/// `VerifyingKey::from_sec1_bytes` reads, with `\n` line endings.
#[verifier::external_body]
fn encode_pem(sec1: &Vec<u8>) -> (r: Option<String>)
    ensures
        match r {
            Some(t) => pem_of_key(sec1@) == Some(t@),
            None => pem_of_key(sec1@) is None,
        },
{
    let key = VerifyingKey::<Secp256k1>::from_sec1_bytes(sec1).ok()?;
    key.to_public_key_pem(LineEnding::LF).ok()
}

/// Relies on `spki::DecodePublicKey::from_public_key_pem`, the key then
/// written as its 33 compressed SEC1 bytes.
#[verifier::external_body]
fn decode_pem(text: &String) -> (r: Option<Vec<u8>>)
    ensures
        match r {
            Some(v) => v@.len() == 33 && key_of_pem(text@) == Some(v@),
            None => key_of_pem(text@) is None,
        },
{
    let key = VerifyingKey::<Secp256k1>::from_public_key_pem(text).ok()?;
    Some(key.to_encoded_point(true).as_bytes().to_vec())
}

impl PublicKey {
    /// The key as PEM SubjectPublicKeyInfo text, or `None` where it is no
    /// point of the curve.
    pub fn to_pem(&self) -> (r: Option<String>)
        ensures
            match pem_of_key(sec1_bytes(*self)) {
                Some(t) => r is Some && r.unwrap()@ == t,
                None => r is None,
            },
    {
        encode_pem(&self.to_sec1())
    }

    /// The key that a PEM SubjectPublicKeyInfo text holds.
    pub fn from_pem(text: &String) -> (r: Option<PublicKey>)
        ensures
            match key_of_pem(text@) {
                Some(b) => r == Some(PublicKey { prefix: b[0], x: be_u256(b, 1) }),
                None => r is None,
            },
    {
        match decode_pem(text) {
            Some(b) => PublicKey::from_sec1(&b),
            None => None,
        }
    }

    /// The compressed SEC1 bytes of the key.
    pub fn to_sec1(&self) -> (r: Vec<u8>)
        ensures
            r@ == sec1_bytes(*self),
    {
        let mut out: Vec<u8> = Vec::new();
        out.push(self.prefix);
        push_be32(&mut out, &self.x);
        assert(out@ =~= sec1_bytes(*self));
        out
    }

    /// The key that 33 compressed SEC1 bytes hold, read without checking
    /// that the point lies on the curve.
    pub fn from_sec1(bytes: &Vec<u8>) -> (r: Option<PublicKey>)
        ensures
            r == (if bytes@.len() == 33 {
                Some(PublicKey { prefix: bytes@[0], x: be_u256(bytes@, 1) })
            } else {
                None
            }),
    {
        if bytes.len() != 33 {
            return None;
        }
        Some(PublicKey { prefix: bytes[0], x: read_be_u256(bytes, 1) })
    }
}

impl Signature {
    pub fn to_bytes(&self) -> (r: Vec<u8>)
        ensures
            r@ == signature_bytes(*self),
    {
        let mut out: Vec<u8> = Vec::new();
        push_be32(&mut out, &self.r);
        push_be32(&mut out, &self.s);
        assert(out@ =~= signature_bytes(*self));
        out
    }

    /// Signs the little-endian bytes of an output's hash with a private key.
    pub fn sign_output(output_hash: &crate::hash::Hash, private_key: &PrivateKey) -> (r: Option<Signature>)
        ensures
            match ecdsa_signature(be32(private_key.scalar), hash_le_bytes(*output_hash)) {
                Some(b) => r == Some(Signature { r: be_u256(b, 0), s: be_u256(b, 32) }),
                None => r is None,
            },
    {
        let secret = private_key.to_bytes();
        let message = output_hash.as_bytes();
        match sign_bytes(&secret, &message) {
            Some(b) => Some(Signature { r: read_be_u256(&b, 0), s: read_be_u256(&b, 32) }),
            None => None,
        }
    }

    /// Whether the signature signs the little-endian bytes of an output's
    /// hash under a public key.
    pub fn verify(&self, output_hash: &crate::hash::Hash, public_key: &PublicKey) -> (r: bool)
        ensures
            r == signature_valid(*self, *output_hash, *public_key),
    {
        let key = public_key.to_sec1();
        let message = output_hash.as_bytes();
        let sig = self.to_bytes();
        verify_bytes(&key, &message, &sig)
    }
}

/// Whether `sig` signs the output hash `h` under `key`.
pub open spec fn signature_valid(sig: Signature, h: crate::hash::Hash, key: PublicKey) -> bool {
    ecdsa_verifies(sec1_bytes(key), hash_le_bytes(h), signature_bytes(sig))
}

impl PrivateKey {
    /// A fresh random key, one that has a public key.
    pub fn new_key() -> (r: PrivateKey)
        ensures
            ecdsa_public_key(be32(r.scalar)) is Some,
    {
        let b = random_secret();
        let r = PrivateKey { scalar: read_be_u256(&b, 0) };
        proof {
            lemma_be32_round_trip(b@);
        }
        r
    }

    /// The 32 big-endian bytes of the secret scalar.
    pub fn to_bytes(&self) -> (r: Vec<u8>)
        ensures
            r@ == be32(self.scalar),
    {
        let mut out: Vec<u8> = Vec::new();
        push_be32(&mut out, &self.scalar);
        out
    }

    /// The public key of this key, or `None` where the scalar is not a valid
    /// secret (zero, or not below the group order).
    pub fn public_key(&self) -> (r: Option<PublicKey>)
        ensures
            match ecdsa_public_key(be32(self.scalar)) {
                Some(b) => r == Some(PublicKey { prefix: b[0], x: be_u256(b, 1) }),
                None => r is None,
            },
    {
        let secret = self.to_bytes();
        match public_key_bytes(&secret) {
            Some(b) => PublicKey::from_sec1(&b),
            None => None,
        }
    }
}

} // verus!
