//! X25519 key agreement, key derivation and ChaCha20-Poly1305 sealing.
use vstd::prelude::*;
use crate::crypto::blake3_of;
use chacha20poly1305::aead::{Aead, KeyInit};
use rand::RngCore;

verus! {

/// The X25519 public key of a 32-byte secret.
pub uninterp spec fn x25519_public_of(secret: Seq<u8>) -> Seq<u8>;

/// The X25519 shared secret of a secret key and a peer's public key.
pub uninterp spec fn x25519_shared_of(secret: Seq<u8>, peer: Seq<u8>) -> Seq<u8>;

/// ChaCha20-Poly1305 ciphertext (tag appended) of a plaintext under a key and nonce.
pub uninterp spec fn aead_seal_of(key: Seq<u8>, nonce: Seq<u8>, plaintext: Seq<u8>) -> Seq<u8>;

/// ChaCha20-Poly1305 opening of a ciphertext; none when authentication fails.
pub uninterp spec fn aead_open_of(key: Seq<u8>, nonce: Seq<u8>, ciphertext: Seq<u8>) -> Option<Seq<u8>>;

/// Relies on x25519_dalek's `PublicKey::from(&StaticSecret)`. Key agreement
/// is symmetric: the shared secret of any other secret with this public key
/// equals that of this secret with the other's public key.
#[verifier::external_body]
fn x25519_public_key(secret: &[u8; 32]) -> (r: [u8; 32])
    ensures
        r@ == x25519_public_of(secret@),
        forall|other: Seq<u8>|
            other.len() == 32 ==> #[trigger] x25519_shared_of(other, r@) == x25519_shared_of(
                secret@,
                x25519_public_of(other),
            ),
{
    x25519_dalek::PublicKey::from(&x25519_dalek::StaticSecret::from(*secret)).to_bytes()
}

/// Relies on x25519_dalek's `StaticSecret::diffie_hellman`.
#[verifier::external_body]
fn x25519_agree(secret: &[u8; 32], peer: &[u8; 32]) -> (r: [u8; 32])
    ensures
        r@ == x25519_shared_of(secret@, peer@),
{
    x25519_dalek::StaticSecret::from(*secret).diffie_hellman(&x25519_dalek::PublicKey::from(*peer)).to_bytes()
}

/// Relies on ChaCha20Poly1305's `Aead::encrypt`, which fails only when the
/// plaintext reaches 2^32 - 1 blocks of 64 bytes and appends a 16-byte tag;
/// what it seals, `decrypt` opens under the same key and nonce.
#[verifier::external_body]
fn aead_encrypt(key: &[u8; 32], nonce: &[u8; 12], plaintext: &[u8]) -> (r: Option<Vec<u8>>)
    ensures
        plaintext@.len() < 64 * 4294967295 ==> r is Some,
        r matches Some(c) ==> c@.len() == plaintext@.len() + 16,
        r matches Some(c) ==> c@ == aead_seal_of(key@, nonce@, plaintext@) && aead_open_of(
            key@,
            nonce@,
            c@,
        ) == Some(plaintext@),
{
    let cipher = chacha20poly1305::ChaCha20Poly1305::new(key.into());
    cipher.encrypt(nonce.into(), plaintext).ok()
}

/// Relies on ChaCha20Poly1305's `Aead::decrypt`.
#[verifier::external_body]
fn aead_decrypt(key: &[u8; 32], nonce: &[u8; 12], ciphertext: &[u8]) -> (r: Option<Vec<u8>>)
    ensures
        r is Some <==> aead_open_of(key@, nonce@, ciphertext@) is Some,
        r matches Some(p) ==> aead_open_of(key@, nonce@, ciphertext@) == Some(p@),
{
    let cipher = chacha20poly1305::ChaCha20Poly1305::new(key.into());
    cipher.decrypt(nonce.into(), ciphertext).ok()
}

/// Relies on rand's `RngCore::fill_bytes` over the thread RNG: `n` random bytes.
#[verifier::external_body]
fn random_bytes(n: usize) -> (r: Vec<u8>)
    ensures
        r@.len() == n,
{
    let mut v = vec![0u8; n];
    rand::thread_rng().fill_bytes(&mut v);
    v
}

/// Errors of the permission and key-sharing layer.
#[derive(Debug, Clone, PartialEq, Eq)]
pub enum PermsError {
    PermissionDenied(String),
    GrantNotFound(String),
    GrantRevoked(String),
    GrantExpired(String),
    InvalidGrant(String),
    EncryptionError(String),
    DecryptionError(String),
    KeyDerivationError(String),
    SerializationError(String),
}

/// Copies the first 12 bytes of a vector.
fn take12(src: &Vec<u8>) -> (r: [u8; 12])
    requires
        src@.len() >= 12,
    ensures
        r@ == src@.subrange(0, 12),
{
    let mut out = [0u8; 12];
    let mut i: usize = 0;
    while i < 12
        invariant
            0 <= i <= 12,
            src@.len() >= 12,
            out@.len() == 12,
            forall|j: int| 0 <= j < i ==> out@[j] == src@[j],
        decreases 12 - i,
    {
        out[i] = src[i];
        i = i + 1;
    }
    assert(out@ =~= src@.subrange(0, 12));
    out
}

/// Copies the first 32 bytes of a vector.
fn take32_vec(src: &Vec<u8>) -> (r: [u8; 32])
    requires
        src@.len() >= 32,
    ensures
        r@ == src@.subrange(0, 32),
{
    crate::bytes::take32(src.as_slice(), 0)
}

/// An X25519 public key.
#[derive(Debug, Clone, Copy)]
pub struct X25519PublicKey(pub [u8; 32]);

impl PartialEq for X25519PublicKey {
    fn eq(&self, o: &X25519PublicKey) -> (r: bool) {
        crate::bytes::eq32(&self.0, &o.0)
    }
}

impl vstd::std_specs::cmp::PartialEqSpecImpl for X25519PublicKey {
    open spec fn obeys_eq_spec() -> bool {
        true
    }

    open spec fn eq_spec(&self, o: &X25519PublicKey) -> bool {
        self.0@ == o.0@
    }
}

impl Eq for X25519PublicKey {}

impl X25519PublicKey {
    pub fn from_bytes(bytes: [u8; 32]) -> (r: X25519PublicKey)
        ensures
            r.0 == bytes,
    {
        X25519PublicKey(bytes)
    }

    pub fn as_bytes(&self) -> (r: &[u8; 32])
        ensures
            *r == self.0,
    {
        &self.0
    }
}

/// A long-lived X25519 secret key, held as its 32 bytes.
pub struct X25519StaticSecret {
    secret: [u8; 32],
}

impl X25519StaticSecret {
    /// The secret bytes.
    pub closed spec fn secret_view(&self) -> Seq<u8> {
        self.secret@
    }

    /// A fresh random secret.
    pub fn generate() -> (r: X25519StaticSecret)
        ensures
            r.secret_view().len() == 32,
    {
        let bytes = random_bytes(32);
        X25519StaticSecret { secret: take32_vec(&bytes) }
    }

    /// The secret with these bytes.
    pub fn from_bytes(bytes: [u8; 32]) -> (r: X25519StaticSecret)
        ensures
            r.secret_view() == bytes@,
    {
        X25519StaticSecret { secret: bytes }
    }

    /// The matching public key.
    pub fn public_key(&self) -> (r: X25519PublicKey)
        ensures
            r.0@ == x25519_public_of(self.secret_view()),
    {
        X25519PublicKey(x25519_public_key(&self.secret))
    }

    /// Key agreement with a peer's public key.
    pub fn diffie_hellman(&self, peer_public: &X25519PublicKey) -> (r: SharedKey)
        ensures
            r.0@ == x25519_shared_of(self.secret_view(), peer_public.0@),
    {
        SharedKey(x25519_agree(&self.secret, &peer_public.0))
    }
}

/// A shared secret from X25519 key agreement.
#[derive(Clone, Copy)]
pub struct SharedKey(pub [u8; 32]);

/// The domain prefix of wrap keys: the ASCII bytes of `chainge-perms-v0-encryption`.
pub open spec fn encryption_domain() -> Seq<u8> {
    seq![99u8, 104, 97, 105, 110, 103, 101, 45, 112, 101, 114, 109, 115, 45, 118, 48, 45, 101, 110, 99, 114, 121, 112, 116, 105, 111, 110]
}

/// The wrap key derived from a shared secret and a context:
/// `Hash(domain ‖ shared ‖ context)`.
pub open spec fn wrap_key_of(shared: Seq<u8>, context: Seq<u8>) -> Seq<u8> {
    blake3_of(encryption_domain() + shared + context)
}

impl SharedKey {
    pub fn as_bytes(&self) -> (r: &[u8; 32])
        ensures
            *r == self.0,
    {
        &self.0
    }

    /// Derives a symmetric key from this secret and `context`, separated from
    /// other hashes by a fixed domain prefix.
    pub fn derive_encryption_key(&self, context: &[u8]) -> (r: EncryptionKey)
        ensures
            r.0@ == wrap_key_of(self.0@, context@),
    {
        let domain: [u8; 27] = [99, 104, 97, 105, 110, 103, 101, 45, 112, 101, 114, 109, 115, 45, 118, 48, 45, 101, 110, 99, 114, 121, 112, 116, 105, 111, 110];
        let mut material: Vec<u8> = Vec::new();
        crate::bytes::append_bytes(&mut material, domain.as_slice());
        assert(domain@ =~= encryption_domain());
        crate::bytes::append_bytes(&mut material, self.0.as_slice());
        crate::bytes::append_bytes(&mut material, context);
        EncryptionKey(crate::crypto::Blake3Hash::hash(material.as_slice()).0)
    }
}

/// A 256-bit ChaCha20-Poly1305 key.
#[derive(Clone, Copy)]
pub struct EncryptionKey(pub [u8; 32]);

impl EncryptionKey {
    /// A fresh random key.
    pub fn generate() -> (r: EncryptionKey) {
        let bytes = random_bytes(32);
        EncryptionKey(take32_vec(&bytes))
    }

    pub fn from_bytes(bytes: [u8; 32]) -> (r: EncryptionKey)
        ensures
            r.0 == bytes,
    {
        EncryptionKey(bytes)
    }

    pub fn as_bytes(&self) -> (r: &[u8; 32])
        ensures
            *r == self.0,
    {
        &self.0
    }

    /// Seals `plaintext` under this key and `nonce`; the tag is appended.
    pub fn encrypt(&self, plaintext: &[u8], nonce: &EncryptionNonce) -> (r: Result<Vec<u8>, PermsError>)
        ensures
            plaintext@.len() < 64 * 4294967295 ==> r is Ok,
            r matches Ok(c) ==> c@.len() == plaintext@.len() + 16,
            r matches Ok(c) ==> c@ == aead_seal_of(self.0@, nonce.0@, plaintext@) && aead_open_of(
                self.0@,
                nonce.0@,
                c@,
            ) == Some(plaintext@),
    {
        match aead_encrypt(&self.0, &nonce.0, plaintext) {
            Some(c) => Ok(c),
            None => Err(PermsError::EncryptionError("plaintext too long".to_string())),
        }
    }

    /// Opens `ciphertext` under this key and `nonce`.
    pub fn decrypt(&self, ciphertext: &[u8], nonce: &EncryptionNonce) -> (r: Result<Vec<u8>, PermsError>)
        ensures
            r is Ok <==> aead_open_of(self.0@, nonce.0@, ciphertext@) is Some,
            r matches Ok(p) ==> aead_open_of(self.0@, nonce.0@, ciphertext@) == Some(p@),
            r matches Err(e) ==> e is DecryptionError,
    {
        match aead_decrypt(&self.0, &nonce.0, ciphertext) {
            Some(p) => Ok(p),
            None => Err(PermsError::DecryptionError("authentication failed".to_string())),
        }
    }
}

/// A 96-bit ChaCha20-Poly1305 nonce.
#[derive(Debug, Clone, Copy)]
pub struct EncryptionNonce(pub [u8; 12]);

impl EncryptionNonce {
    /// A fresh random nonce.
    pub fn generate() -> (r: EncryptionNonce) {
        let bytes = random_bytes(12);
        EncryptionNonce(take12(&bytes))
    }

    pub fn from_bytes(bytes: [u8; 12]) -> (r: EncryptionNonce)
        ensures
            r.0 == bytes,
    {
        EncryptionNonce(bytes)
    }

    pub fn as_bytes(&self) -> (r: &[u8; 12])
        ensures
            *r == self.0,
    {
        &self.0
    }
}

/// A one-time X25519 key pair.
pub struct EphemeralKeyPair {
    secret: [u8; 32],
    public: X25519PublicKey,
}

impl EphemeralKeyPair {
    /// The public key agrees with the secret.
    pub closed spec fn wf(&self) -> bool {
        &&& self.public.0@ == x25519_public_of(self.secret@)
        &&& forall|other: Seq<u8>|
            other.len() == 32 ==> #[trigger] x25519_shared_of(other, self.public.0@) == x25519_shared_of(
                self.secret@,
                x25519_public_of(other),
            )
    }

    /// The public key bytes.
    pub closed spec fn public_view(&self) -> Seq<u8> {
        self.public.0@
    }

    /// The shared secret this pair computes with a peer public key.
    pub closed spec fn shared_with(&self, peer: Seq<u8>) -> Seq<u8> {
        x25519_shared_of(self.secret@, peer)
    }

    /// A fresh random pair.
    pub fn generate() -> (r: EphemeralKeyPair)
        ensures
            r.wf(),
            r.public_view().len() == 32,
    {
        let bytes = random_bytes(32);
        let secret = take32_vec(&bytes);
        let public = X25519PublicKey(x25519_public_key(&secret));
        EphemeralKeyPair { secret, public }
    }

    /// The public half.
    pub fn public_key(&self) -> (r: X25519PublicKey)
        ensures
            r.0@ == self.public_view(),
    {
        self.public
    }

    /// Key agreement with a peer's public key; consumes the pair.
    pub fn diffie_hellman(self, peer_public: &X25519PublicKey) -> (r: SharedKey)
        ensures
            r.0@ == self.shared_with(peer_public.0@),
    {
        SharedKey(x25519_agree(&self.secret, &peer_public.0))
    }

    /// Whatever secret `other` the peer holds, the peer derives the same
    /// shared secret from this pair's public key as this pair does from
    /// the peer's public key.
    pub proof fn lemma_agreement(&self, other: Seq<u8>)
        requires
            self.wf(),
            other.len() == 32,
        ensures
            x25519_shared_of(other, self.public_view()) == self.shared_with(x25519_public_of(other)),
    {
    }
}

} // verus!
