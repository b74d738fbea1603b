//! Encrypted payload envelopes and per-recipient content-key shares.
use vstd::prelude::*;
use crate::agreement::{
    aead_open_of, aead_seal_of, wrap_key_of, x25519_public_of, x25519_shared_of, EncryptionKey,
    EncryptionNonce, EphemeralKeyPair, PermsError, X25519PublicKey, X25519StaticSecret,
};
use crate::types::ReceiptId;

verus! {

/// The cipher of an envelope.
#[derive(Debug, Clone, Copy, PartialEq, Eq, Structural)]
pub enum EncryptionFormat {
    /// ChaCha20-Poly1305 with a 256-bit key.
    ChaCha20Poly1305,
}

/// An encrypted payload: cipher, nonce, and ciphertext with its tag.
#[derive(Debug, Clone)]
pub struct EncryptedPayload {
    pub format: EncryptionFormat,
    pub nonce: EncryptionNonce,
    pub ciphertext: Vec<u8>,
}

impl EncryptedPayload {
    /// Seals `plaintext` under `key` with a fresh nonce.
    pub fn encrypt(plaintext: &[u8], key: &EncryptionKey) -> (r: Result<EncryptedPayload, PermsError>)
        ensures
            plaintext@.len() < 64 * 4294967295 ==> r is Ok,
            r matches Ok(e) ==> e.format == EncryptionFormat::ChaCha20Poly1305 && e.ciphertext@.len()
                == plaintext@.len() + 16,
            r matches Ok(e) ==> e.ciphertext@ == aead_seal_of(key.0@, e.nonce.0@, plaintext@) && aead_open_of(
                key.0@,
                e.nonce.0@,
                e.ciphertext@,
            ) == Some(plaintext@),
    {
        let nonce = EncryptionNonce::generate();
        let ciphertext = key.encrypt(plaintext, &nonce)?;
        Ok(EncryptedPayload { format: EncryptionFormat::ChaCha20Poly1305, nonce, ciphertext })
    }

    /// Opens the envelope with `key`.
    pub fn decrypt(&self, key: &EncryptionKey) -> (r: Result<Vec<u8>, PermsError>)
        ensures
            r is Ok <==> aead_open_of(key.0@, self.nonce.0@, self.ciphertext@) is Some,
            r matches Ok(p) ==> aead_open_of(key.0@, self.nonce.0@, self.ciphertext@) == Some(p@),
    {
        match self.format {
            EncryptionFormat::ChaCha20Poly1305 => key.decrypt(self.ciphertext.as_slice(), &self.nonce),
        }
    }

    /// A quick look at serialized bytes: an envelope starts with the header
    /// of a three-entry map. A heuristic only.
    pub fn is_encrypted(bytes: &[u8]) -> (r: bool)
        ensures
            r == (bytes@.len() > 0 && bytes@[0] == 0xa3),
    {
        bytes.len() > 0 && bytes[0] == 0xa3
    }

    pub fn ciphertext_len(&self) -> (r: usize)
        ensures
            r == self.ciphertext@.len(),
    {
        self.ciphertext.len()
    }
}

/// Builds an envelope under a fresh content key, which is then shared with
/// recipients through key shares.
pub struct EncryptedPayloadBuilder {
    plaintext: Vec<u8>,
    content_key: EncryptionKey,
}

impl EncryptedPayloadBuilder {
    pub closed spec fn plaintext_view(&self) -> Seq<u8> {
        self.plaintext@
    }

    pub closed spec fn key_view(&self) -> Seq<u8> {
        self.content_key.0@
    }

    /// Starts an envelope of `plaintext` under a fresh random key.
    pub fn new(plaintext: Vec<u8>) -> (r: EncryptedPayloadBuilder)
        ensures
            r.plaintext_view() == plaintext@,
    {
        EncryptedPayloadBuilder { plaintext, content_key: EncryptionKey::generate() }
    }

    /// The content key.
    pub fn content_key(&self) -> (r: &EncryptionKey)
        ensures
            r.0@ == self.key_view(),
    {
        &self.content_key
    }

    /// Seals the plaintext under the content key.
    pub fn build(self) -> (r: Result<EncryptedPayload, PermsError>)
        ensures
            self.plaintext_view().len() < 64 * 4294967295 ==> r is Ok,
            r matches Ok(e) ==> e.ciphertext@.len() == self.plaintext_view().len() + 16,
            r matches Ok(e) ==> aead_open_of(self.key_view(), e.nonce.0@, e.ciphertext@) == Some(
                self.plaintext_view(),
            ),
    {
        EncryptedPayload::encrypt(self.plaintext.as_slice(), &self.content_key)
    }
}

/// A content key sealed for one recipient.
#[derive(Debug, Clone)]
pub struct KeySharePayload {
    /// The grant the share belongs to.
    pub grant_receipt_id: ReceiptId,
    /// The sender's one-time X25519 public key.
    pub ephemeral_public: X25519PublicKey,
    /// The sealed content key.
    pub encrypted_key: Vec<u8>,
    pub nonce: EncryptionNonce,
}

/// What a recipient holding `secret` opens from a share: key agreement with
/// the ephemeral key, the wrap key under the grant id, then the AEAD.
pub open spec fn keyshare_opening(share: KeySharePayload, secret: Seq<u8>) -> Option<Seq<u8>> {
    aead_open_of(
        wrap_key_of(x25519_shared_of(secret, share.ephemeral_public.0@), share.grant_receipt_id.0@),
        share.nonce.0@,
        share.encrypted_key@,
    )
}

/// `share` carries `key` for whoever holds a secret whose public key is `recipient`.
pub open spec fn shares_key_with(share: KeySharePayload, key: Seq<u8>, recipient: Seq<u8>) -> bool {
    forall|secret: Seq<u8>|
        secret.len() == 32 && x25519_public_of(secret) == recipient ==> #[trigger] keyshare_opening(share, secret)
            == Some(key)
}

impl KeySharePayload {
    /// Seals `symmetric_key` for the holder of `recipient_public`: a fresh
    /// ephemeral key pair, key agreement, a wrap key derived under the grant
    /// id, and a fresh nonce.
    pub fn create(grant_receipt_id: ReceiptId, symmetric_key: &EncryptionKey, recipient_public: &X25519PublicKey) -> (r:
        KeySharePayload)
        ensures
            r.grant_receipt_id == grant_receipt_id,
            r.encrypted_key@.len() == 48,
            shares_key_with(r, symmetric_key.0@, recipient_public.0@),
    {
        let ephemeral = EphemeralKeyPair::generate();
        let ephemeral_public = ephemeral.public_key();
        let ghost eph = ephemeral;
        let shared = ephemeral.diffie_hellman(recipient_public);
        let wrap_key = shared.derive_encryption_key(grant_receipt_id.0.as_slice());
        let nonce = EncryptionNonce::generate();
        let encrypted_key = match wrap_key.encrypt(symmetric_key.0.as_slice(), &nonce) {
            Ok(c) => c,
            Err(_) => {
                assert(false);
                Vec::new()
            },
        };
        let r = KeySharePayload { grant_receipt_id, ephemeral_public, encrypted_key, nonce };
        proof {
            assert forall|secret: Seq<u8>| secret.len() == 32 && x25519_public_of(secret) == recipient_public.0@ implies
                #[trigger] keyshare_opening(r, secret) == Some(symmetric_key.0@) by {
                eph.lemma_agreement(secret);
            }
        }
        r
    }

    /// Opens the share with the recipient's secret; a failed opening or a
    /// key that is not 32 bytes is a decryption error.
    pub fn decrypt(&self, recipient_secret: &X25519StaticSecret) -> (r: Result<EncryptionKey, PermsError>)
        ensures
            r matches Ok(k) ==> keyshare_opening(*self, recipient_secret.secret_view()) == Some(k.0@),
            r is Ok <==> (keyshare_opening(*self, recipient_secret.secret_view()) matches Some(k) && k.len()
                == 32),
            r matches Err(e) ==> e is DecryptionError,
    {
        let shared = recipient_secret.diffie_hellman(&self.ephemeral_public);
        let wrap_key = shared.derive_encryption_key(self.grant_receipt_id.0.as_slice());
        let key_bytes = wrap_key.decrypt(self.encrypted_key.as_slice(), &self.nonce)?;
        if key_bytes.len() != 32 {
            return Err(PermsError::DecryptionError("invalid key length".to_string()));
        }
        let arr = crate::bytes::take32(key_bytes.as_slice(), 0);
        assert(arr@ =~= key_bytes@);
        Ok(EncryptionKey::from_bytes(arr))
    }
}

/// A share created for a recipient opens, under that recipient's secret, to
/// exactly the shared key.
pub proof fn lemma_keyshare_round_trip(share: KeySharePayload, key: Seq<u8>, secret: Seq<u8>)
    requires
        shares_key_with(share, key, x25519_public_of(secret)),
        secret.len() == 32,
    ensures
        keyshare_opening(share, secret) == Some(key),
{
}

} // verus!
