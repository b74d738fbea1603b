//! Ed25519 signing and BLAKE3 hashing behind fixed-width byte types.
use vstd::prelude::*;
use crate::bytes::{eq32, eq64, hex_of, to_hex_string};
use ed25519_dalek::{Signer, SigningKey, Verifier, VerifyingKey};

verus! {

/// The BLAKE3 digest of a byte sequence.
pub uninterp spec fn blake3_of(data: Seq<u8>) -> Seq<u8>;

/// The Ed25519 public key that belongs to a 32-byte seed.
pub uninterp spec fn ed25519_public_of(seed: Seq<u8>) -> Seq<u8>;

/// The deterministic Ed25519 signature of a message under a seed.
pub uninterp spec fn ed25519_signature_of(seed: Seq<u8>, msg: Seq<u8>) -> Seq<u8>;

/// Whether Ed25519 verification accepts a signature over a message.
pub uninterp spec fn ed25519_accepts(pk: Seq<u8>, msg: Seq<u8>, sig: Seq<u8>) -> bool;

/// Relies on blake3::hash: the 32-byte digest of the input.
#[verifier::external_body]
fn blake3_digest(data: &[u8]) -> (r: [u8; 32])
    ensures
        r@ == blake3_of(data@),
{
    *blake3::hash(data).as_bytes()
}

/// Relies on SigningKey::from_bytes and verifying_key: the public key of a seed.
#[verifier::external_body]
fn ed25519_public_key(seed: &[u8; 32]) -> (r: [u8; 32])
    ensures
        r@ == ed25519_public_of(seed@),
{
    SigningKey::from_bytes(seed).verifying_key().to_bytes()
}

/// Relies on SigningKey::sign: deterministic Ed25519, whose signatures
/// `verify` accepts under the matching public key.
#[verifier::external_body]
fn ed25519_sign(seed: &[u8; 32], msg: &[u8]) -> (r: [u8; 64])
    ensures
        r@ == ed25519_signature_of(seed@, msg@),
        ed25519_accepts(ed25519_public_of(seed@), msg@, r@),
{
    SigningKey::from_bytes(seed).sign(msg).to_bytes()
}

/// Relies on VerifyingKey::from_bytes and Verifier::verify.
#[verifier::external_body]
fn ed25519_verify(pk: &[u8; 32], msg: &[u8], sig: &[u8; 64]) -> (r: Result<(), CoreError>)
    ensures
        r is Ok <==> ed25519_accepts(pk@, msg@, sig@),
{
    let key = match VerifyingKey::from_bytes(pk) {
        Ok(k) => k,
        Err(_) => return Err(CoreError::InvalidPublicKey),
    };
    match key.verify(msg, &ed25519_dalek::Signature::from_bytes(sig)) {
        Ok(()) => Ok(()),
        Err(_) => Err(CoreError::InvalidSignature),
    }
}

/// Relies on SigningKey::generate over rand's thread RNG: a fresh random seed.
#[verifier::external_body]
fn ed25519_random_seed() -> (r: [u8; 32]) {
    SigningKey::generate(&mut rand::thread_rng()).to_bytes()
}

/// Errors of the signing and decoding layer.
#[derive(Debug, Clone, PartialEq, Eq)]
pub enum CoreError {
    InvalidSignature,
    InvalidPublicKey,
    PayloadHashMismatch { expected: String, actual: String },
    UnsupportedVersion(u8),
    MalformedReceipt(String),
    EncodingError(String),
    DecodingError(String),
}

/// A 32-byte BLAKE3 hash.
#[derive(Debug, Clone, Copy)]
pub struct Blake3Hash(pub [u8; 32]);

impl PartialEq for Blake3Hash {
    fn eq(&self, o: &Blake3Hash) -> (r: bool) {
        eq32(&self.0, &o.0)
    }
}

impl vstd::std_specs::cmp::PartialEqSpecImpl for Blake3Hash {
    open spec fn obeys_eq_spec() -> bool {
        true
    }

    open spec fn eq_spec(&self, o: &Blake3Hash) -> bool {
        self.0@ == o.0@
    }
}

impl Eq for Blake3Hash {}

impl Blake3Hash {
    /// The all-zero hash, used as a sentinel.
    pub fn zero() -> (r: Blake3Hash)
        ensures
            r.0@ == Seq::new(32, |i: int| 0u8),
    {
        let r = Blake3Hash([0u8; 32]);
        assert(r.0@ =~= Seq::new(32, |i: int| 0u8));
        r
    }

    /// The BLAKE3 hash of `data`.
    pub fn hash(data: &[u8]) -> (r: Blake3Hash)
        ensures
            r.0@ == blake3_of(data@),
    {
        Blake3Hash(blake3_digest(data))
    }

    pub fn from_bytes(bytes: [u8; 32]) -> (r: Blake3Hash)
        ensures
            r.0 == bytes,
    {
        Blake3Hash(bytes)
    }

    pub fn as_bytes(&self) -> (r: &[u8; 32])
        ensures
            *r == self.0,
    {
        &self.0
    }

    /// Lowercase hex of the 32 bytes.
    pub fn to_hex(&self) -> (r: String)
        ensures
            r@ == hex_of(self.0@),
    {
        to_hex_string(&self.0)
    }
}

/// A 32-byte Ed25519 public key.
#[derive(Debug, Clone, Copy)]
pub struct Ed25519PublicKey(pub [u8; 32]);

impl PartialEq for Ed25519PublicKey {
    fn eq(&self, o: &Ed25519PublicKey) -> (r: bool) {
        eq32(&self.0, &o.0)
    }
}

impl vstd::std_specs::cmp::PartialEqSpecImpl for Ed25519PublicKey {
    open spec fn obeys_eq_spec() -> bool {
        true
    }

    open spec fn eq_spec(&self, o: &Ed25519PublicKey) -> bool {
        self.0@ == o.0@
    }
}

impl Eq for Ed25519PublicKey {}

impl Ed25519PublicKey {
    pub fn from_bytes(bytes: [u8; 32]) -> (r: Ed25519PublicKey)
        ensures
            r.0 == bytes,
    {
        Ed25519PublicKey(bytes)
    }

    pub fn as_bytes(&self) -> (r: &[u8; 32])
        ensures
            *r == self.0,
    {
        &self.0
    }

    /// Lowercase hex of the 32 bytes.
    pub fn to_hex(&self) -> (r: String)
        ensures
            r@ == hex_of(self.0@),
    {
        to_hex_string(&self.0)
    }

    /// Parses lowercase hex of 32 bytes (as `to_hex` writes it).
    pub fn from_hex(s: &str) -> (r: Result<Ed25519PublicKey, crate::bytes::HexError>)
        ensures
            forall|b: Seq<u8>| b.len() == 32 && #[trigger] hex_of(b) == s@ ==> (r matches Ok(v) && v.0@ == b),
            r is Ok ==> s@.len() == 64,
    {
        match crate::bytes::decode_hex32(s) {
            Ok(a) => Ok(Ed25519PublicKey(a)),
            Err(e) => Err(e),
        }
    }

    /// Checks an Ed25519 signature over `message` under this key.
    pub fn verify(&self, message: &[u8], signature: &Ed25519Signature) -> (r: Result<(), CoreError>)
        ensures
            r is Ok <==> ed25519_accepts(self.0@, message@, signature.0@),
    {
        ed25519_verify(&self.0, message, &signature.0)
    }
}

/// A 64-byte Ed25519 signature.
#[derive(Debug, Clone, Copy)]
pub struct Ed25519Signature(pub [u8; 64]);

impl PartialEq for Ed25519Signature {
    fn eq(&self, o: &Ed25519Signature) -> (r: bool) {
        eq64(&self.0, &o.0)
    }
}

impl vstd::std_specs::cmp::PartialEqSpecImpl for Ed25519Signature {
    open spec fn obeys_eq_spec() -> bool {
        true
    }

    open spec fn eq_spec(&self, o: &Ed25519Signature) -> bool {
        self.0@ == o.0@
    }
}

impl Eq for Ed25519Signature {}

impl Ed25519Signature {
    /// The all-zero signature, used as a placeholder.
    pub fn zero() -> (r: Ed25519Signature)
        ensures
            r.0@ == Seq::new(64, |i: int| 0u8),
    {
        let r = Ed25519Signature([0u8; 64]);
        assert(r.0@ =~= Seq::new(64, |i: int| 0u8));
        r
    }

    pub fn from_bytes(bytes: [u8; 64]) -> (r: Ed25519Signature)
        ensures
            r.0 == bytes,
    {
        Ed25519Signature(bytes)
    }

    pub fn as_bytes(&self) -> (r: &[u8; 64])
        ensures
            *r == self.0,
    {
        &self.0
    }

    /// Lowercase hex of the 64 bytes.
    pub fn to_hex(&self) -> (r: String)
        ensures
            r@ == hex_of(self.0@),
    {
        to_hex_string(&self.0)
    }
}

/// An Ed25519 signing keypair, held as its 32-byte seed (the private key).
#[derive(Clone)]
pub struct Keypair {
    seed: [u8; 32],
}

impl Keypair {
    /// The seed that this keypair signs with.
    pub closed spec fn seed_view(&self) -> Seq<u8> {
        self.seed@
    }

    /// A keypair from a fresh random seed.
    pub fn generate() -> (r: Keypair)
        ensures
            r.seed_view().len() == 32,
    {
        Keypair { seed: ed25519_random_seed() }
    }

    /// The keypair whose private key is `seed`.
    pub fn from_seed(seed: &[u8; 32]) -> (r: Keypair)
        ensures
            r.seed_view() == seed@,
    {
        Keypair { seed: *seed }
    }

    /// The public half.
    pub fn public_key(&self) -> (r: Ed25519PublicKey)
        ensures
            r.0@ == ed25519_public_of(self.seed_view()),
    {
        Ed25519PublicKey(ed25519_public_key(&self.seed))
    }

    /// Signs `message`; the signature verifies under `public_key()`.
    pub fn sign(&self, message: &[u8]) -> (r: Ed25519Signature)
        ensures
            r.0@ == ed25519_signature_of(self.seed_view(), message@),
            ed25519_accepts(ed25519_public_of(self.seed_view()), message@, r.0@),
    {
        Ed25519Signature(ed25519_sign(&self.seed, message))
    }

    /// The secret seed bytes.
    pub fn seed(&self) -> (r: [u8; 32])
        ensures
            r@ == self.seed_view(),
    {
        self.seed
    }
}

} // verus!
