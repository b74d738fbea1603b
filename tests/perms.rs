use chainge_kernel::agreement::{
    EncryptionKey, EncryptionNonce, EphemeralKeyPair, PermsError, SharedKey, X25519StaticSecret,
};
use chainge_kernel::crypto::Keypair;
use chainge_kernel::grant::{Conditions, GrantPayload, PermissionScope, RevokePayload};
use chainge_kernel::keyshare::{EncryptedPayload, EncryptedPayloadBuilder, KeySharePayload};
use chainge_kernel::permissions::PermissionState;
use chainge_kernel::stream::StreamId;
use chainge_kernel::types::ReceiptId;

#[test]
fn test_x25519_key_agreement() {
    let alice_secret = X25519StaticSecret::generate();
    let alice_public = alice_secret.public_key();
    let bob_secret = X25519StaticSecret::generate();
    let bob_public = bob_secret.public_key();
    let alice_shared = alice_secret.diffie_hellman(&bob_public);
    let bob_shared = bob_secret.diffie_hellman(&alice_public);
    assert_eq!(alice_shared.as_bytes(), bob_shared.as_bytes());
}

#[test]
fn test_ephemeral_key_agreement() {
    let bob_secret = X25519StaticSecret::generate();
    let bob_public = bob_secret.public_key();
    let alice_ephemeral = EphemeralKeyPair::generate();
    let alice_ephemeral_public = alice_ephemeral.public_key();
    let alice_shared = alice_ephemeral.diffie_hellman(&bob_public);
    let bob_shared = bob_secret.diffie_hellman(&alice_ephemeral_public);
    assert_eq!(alice_shared.as_bytes(), bob_shared.as_bytes());
}

#[test]
fn test_encrypt_decrypt() {
    let key = EncryptionKey::generate();
    let nonce = EncryptionNonce::generate();
    let plaintext = b"hello, world!";
    let ciphertext = key.encrypt(plaintext, &nonce).unwrap();
    assert_ne!(ciphertext, plaintext);
    assert_eq!(ciphertext.len(), plaintext.len() + 16);
    let decrypted = key.decrypt(&ciphertext, &nonce).unwrap();
    assert_eq!(decrypted, plaintext);
}

#[test]
fn test_decrypt_wrong_key_fails() {
    let key1 = EncryptionKey::generate();
    let key2 = EncryptionKey::generate();
    let nonce = EncryptionNonce::generate();
    let ciphertext = key1.encrypt(b"secret", &nonce).unwrap();
    assert!(key2.decrypt(&ciphertext, &nonce).is_err());
}

#[test]
fn test_key_derivation_deterministic() {
    let shared = SharedKey([0x42; 32]);
    let context = b"test-context";
    let key1 = shared.derive_encryption_key(context);
    let key2 = shared.derive_encryption_key(context);
    assert_eq!(key1.as_bytes(), key2.as_bytes());
}

#[test]
fn test_key_derivation_different_contexts() {
    let shared = SharedKey([0x42; 32]);
    let key1 = shared.derive_encryption_key(b"context-a");
    let key2 = shared.derive_encryption_key(b"context-b");
    assert_ne!(key1.as_bytes(), key2.as_bytes());
}

#[test]
fn derived_key_is_hash_of_domain_secret_and_context() {
    let shared = SharedKey([0x42; 32]);
    let mut material = b"chainge-perms-v0-encryption".to_vec();
    material.extend_from_slice(&[0x42u8; 32]);
    material.extend_from_slice(b"ctx");
    let expected = blake3::hash(&material);
    assert_eq!(shared.derive_encryption_key(b"ctx").as_bytes(), expected.as_bytes());
}

#[test]
fn test_encrypt_decrypt_roundtrip() {
    let key = EncryptionKey::generate();
    let plaintext = b"hello, encrypted world!";
    let envelope = EncryptedPayload::encrypt(plaintext, &key).unwrap();
    assert_eq!(envelope.decrypt(&key).unwrap(), plaintext);
    assert_eq!(envelope.ciphertext_len(), plaintext.len() + 16);
}

#[test]
fn test_wrong_key_fails() {
    let key1 = EncryptionKey::generate();
    let key2 = EncryptionKey::generate();
    let envelope = EncryptedPayload::encrypt(b"secret", &key1).unwrap();
    assert!(envelope.decrypt(&key2).is_err());
}

#[test]
fn test_builder_pattern() {
    let builder = EncryptedPayloadBuilder::new(b"my secret data".to_vec());
    let content_key = builder.content_key().as_bytes().clone();
    let envelope = builder.build().unwrap();
    let key = EncryptionKey::from_bytes(content_key);
    let decrypted = envelope.decrypt(&key).unwrap();
    assert_eq!(decrypted, b"my secret data");
}

#[test]
fn envelope_sniffing_looks_at_first_byte() {
    assert!(EncryptedPayload::is_encrypted(&[0xa3, 0x00]));
    assert!(!EncryptedPayload::is_encrypted(&[0xa2]));
    assert!(!EncryptedPayload::is_encrypted(&[]));
}

#[test]
fn test_conditions_expiration() {
    let cond = Conditions::expires_at(1000);
    assert!(cond.is_valid(500, 0));
    assert!(cond.is_valid(1000, 0));
    assert!(!cond.is_valid(1001, 0));
}

#[test]
fn test_conditions_max_uses() {
    let cond = Conditions::max_uses(3);
    assert!(cond.is_valid(0, 0));
    assert!(cond.is_valid(0, 2));
    assert!(!cond.is_valid(0, 3));
}

#[test]
fn test_scope_read_stream() {
    let stream_id = StreamId::zero();
    let other_stream = StreamId::from_bytes([1u8; 32]);
    let scope = PermissionScope::ReadStream { stream_id };
    assert!(scope.can_read_stream(&stream_id));
    assert!(!scope.can_read_stream(&other_stream));
}

#[test]
fn scope_receipt_and_write_rules() {
    let sid = StreamId::from_bytes([1; 32]);
    let rid = ReceiptId::from_bytes([2; 32]);
    let read_receipt = PermissionScope::ReadReceipt { receipt_id: rid };
    assert!(read_receipt.can_read_receipt(&rid, &sid));
    assert!(!read_receipt.can_read_stream(&sid));
    assert!(read_receipt.stream_id().is_none());
    let write = PermissionScope::WriteStream { stream_id: sid };
    assert!(write.can_write_stream(&sid));
    assert!(!write.can_read_stream(&sid));
    assert_eq!(write.stream_id(), Some(&sid));
}

#[test]
fn test_grant_and_check() {
    let mut state = PermissionState::new();
    let grantor = Keypair::generate();
    let recipient = Keypair::generate();
    let stream_id = StreamId::derive(&grantor.public_key(), "test");
    let grant_id = ReceiptId::from_bytes([0x42; 32]);
    let payload = GrantPayload::read_stream(recipient.public_key(), stream_id);
    state.apply_grant(grant_id, grantor.public_key(), 1, payload);
    assert!(state.can_read_stream(&recipient.public_key(), &stream_id, 0));
    assert!(!state.can_write_stream(&recipient.public_key(), &stream_id, 0));
}

#[test]
fn test_revoke_removes_access() {
    let mut state = PermissionState::new();
    let grantor = Keypair::generate();
    let recipient = Keypair::generate();
    let stream_id = StreamId::derive(&grantor.public_key(), "test");
    let grant_id = ReceiptId::from_bytes([0x42; 32]);
    let payload = GrantPayload::read_stream(recipient.public_key(), stream_id);
    state.apply_grant(grant_id, grantor.public_key(), 1, payload);
    assert!(state.can_read_stream(&recipient.public_key(), &stream_id, 0));
    let revoke_payload = RevokePayload::new(grant_id);
    let revoke_id = ReceiptId::from_bytes([0x43; 32]);
    state.apply_revoke(revoke_id, 2, revoke_payload);
    assert!(!state.can_read_stream(&recipient.public_key(), &stream_id, 0));
}

#[test]
fn revocation_survives_grant_replay() {
    let mut state = PermissionState::new();
    let grantor = Keypair::from_seed(&[1; 32]);
    let recipient = Keypair::from_seed(&[2; 32]);
    let stream_id = StreamId::derive(&grantor.public_key(), "test");
    let grant_id = ReceiptId::from_bytes([0x42; 32]);
    let payload = GrantPayload::read_stream(recipient.public_key(), stream_id);
    state.apply_grant(grant_id, grantor.public_key(), 1, payload);
    state.apply_revoke(ReceiptId::from_bytes([0x43; 32]), 2, RevokePayload::new(grant_id));
    state.apply_grant(grant_id, grantor.public_key(), 1, payload);
    assert!(!state.can_read_stream(&recipient.public_key(), &stream_id, 0));
    let g = state.get_grant(&grant_id).unwrap();
    assert!(g.revoked);
    assert_eq!(g.revoked_at_seq, Some(2));
}

#[test]
fn test_expired_grant() {
    let mut state = PermissionState::new();
    let grantor = Keypair::generate();
    let recipient = Keypair::generate();
    let stream_id = StreamId::derive(&grantor.public_key(), "test");
    let grant_id = ReceiptId::from_bytes([0x42; 32]);
    let payload = GrantPayload::read_stream(recipient.public_key(), stream_id)
        .with_conditions(Conditions::expires_at(1000));
    state.apply_grant(grant_id, grantor.public_key(), 1, payload);
    assert!(state.can_read_stream(&recipient.public_key(), &stream_id, 500));
    assert!(!state.can_read_stream(&recipient.public_key(), &stream_id, 1500));
}

#[test]
fn test_admin_implies_read_and_write() {
    let mut state = PermissionState::new();
    let grantor = Keypair::generate();
    let recipient = Keypair::generate();
    let stream_id = StreamId::derive(&grantor.public_key(), "test");
    let grant_id = ReceiptId::from_bytes([0x42; 32]);
    let payload = GrantPayload {
        recipient: recipient.public_key(),
        scope: PermissionScope::Admin { stream_id },
        conditions: None,
    };
    state.apply_grant(grant_id, grantor.public_key(), 1, payload);
    assert!(state.can_read_stream(&recipient.public_key(), &stream_id, 0));
    assert!(state.can_write_stream(&recipient.public_key(), &stream_id, 0));
}

#[test]
fn use_limit_counts_recorded_uses() {
    let mut state = PermissionState::new();
    let grantor = Keypair::from_seed(&[1; 32]);
    let recipient = Keypair::from_seed(&[2; 32]);
    let stream_id = StreamId::derive(&grantor.public_key(), "test");
    let grant_id = ReceiptId::from_bytes([0x42; 32]);
    let payload = GrantPayload::read_stream(recipient.public_key(), stream_id)
        .with_conditions(Conditions::max_uses(2));
    state.apply_grant(grant_id, grantor.public_key(), 1, payload);
    assert!(state.record_use(&grant_id));
    assert!(state.can_read_stream(&recipient.public_key(), &stream_id, 0));
    assert!(state.record_use(&grant_id));
    assert!(!state.can_read_stream(&recipient.public_key(), &stream_id, 0));
    assert!(!state.record_use(&ReceiptId::from_bytes([0; 32])));
}

#[test]
fn read_receipt_grant_and_listings() {
    let mut state = PermissionState::new();
    let grantor = Keypair::from_seed(&[1; 32]);
    let recipient = Keypair::from_seed(&[2; 32]);
    let stream_id = StreamId::derive(&grantor.public_key(), "test");
    let rid = ReceiptId::from_bytes([9; 32]);
    state.apply_grant(
        ReceiptId::from_bytes([0x42; 32]),
        grantor.public_key(),
        1,
        GrantPayload::read_receipt(recipient.public_key(), rid),
    );
    assert!(state.can_read_receipt(&recipient.public_key(), &rid, &stream_id, 0));
    assert!(!state.can_read_receipt(&recipient.public_key(), &ReceiptId::from_bytes([8; 32]), &stream_id, 0));
    assert!(!state.can_read_stream(&recipient.public_key(), &stream_id, 0));
    assert_eq!(state.grants_for(&recipient.public_key()).len(), 1);
    assert_eq!(state.valid_grants_for(&recipient.public_key(), 0).len(), 1);
    assert_eq!(state.grants_for(&grantor.public_key()).len(), 0);
}

#[test]
fn test_keyshare_roundtrip() {
    let recipient_secret = X25519StaticSecret::generate();
    let recipient_public = recipient_secret.public_key();
    let symmetric_key = EncryptionKey::from_bytes([0x42; 32]);
    let grant_id = ReceiptId::from_bytes([0x01; 32]);
    let share = KeySharePayload::create(grant_id, &symmetric_key, &recipient_public);
    let decrypted = share.decrypt(&recipient_secret).unwrap();
    assert_eq!(decrypted.as_bytes(), symmetric_key.as_bytes());
}

#[test]
fn test_keyshare_wrong_recipient_fails() {
    let recipient_secret = X25519StaticSecret::generate();
    let recipient_public = recipient_secret.public_key();
    let wrong_secret = X25519StaticSecret::generate();
    let symmetric_key = EncryptionKey::from_bytes([0x42; 32]);
    let grant_id = ReceiptId::from_bytes([0x01; 32]);
    let share = KeySharePayload::create(grant_id, &symmetric_key, &recipient_public);
    assert!(share.decrypt(&wrong_secret).is_err());
}

#[test]
fn keyshare_with_other_grant_id_fails() {
    let secret = X25519StaticSecret::from_bytes([7; 32]);
    let key = EncryptionKey::from_bytes([0x42; 32]);
    let mut share = KeySharePayload::create(ReceiptId::from_bytes([0x42; 32]), &key, &secret.public_key());
    share.grant_receipt_id = ReceiptId::from_bytes([0x43; 32]);
    assert!(matches!(share.decrypt(&secret), Err(PermsError::DecryptionError(_))));
}

#[test]
fn scenario_permission_grant_and_revoke() {
    let owner = Keypair::from_seed(&[0x42; 32]);
    let reader = Keypair::from_seed(&[0x07; 32]);
    let s = StreamId::derive(&owner.public_key(), "data");
    let mut state = PermissionState::new();
    let grant_id = ReceiptId::from_bytes([1; 32]);
    state.apply_grant(grant_id, owner.public_key(), 1, GrantPayload::read_stream(reader.public_key(), s));
    assert!(state.can_read_stream(&reader.public_key(), &s, 1000));
    state.apply_revoke(ReceiptId::from_bytes([2; 32]), 2, RevokePayload::new(grant_id));
    assert!(!state.can_read_stream(&reader.public_key(), &s, 1001));

    let mut expiring = PermissionState::new();
    expiring.apply_grant(
        grant_id,
        owner.public_key(),
        1,
        GrantPayload::read_stream(reader.public_key(), s).with_conditions(Conditions::expires_at(1000)),
    );
    assert!(expiring.can_read_stream(&reader.public_key(), &s, 500));
    assert!(!expiring.can_read_stream(&reader.public_key(), &s, 1500));
}

#[test]
fn scenario_keyshare_fixed_keys() {
    let recipient = X25519StaticSecret::from_bytes([0x11; 32]);
    let content_key = EncryptionKey::from_bytes([0x22; 32]);
    let share = KeySharePayload::create(ReceiptId::from_bytes([0x42; 32]), &content_key, &recipient.public_key());
    assert_eq!(share.grant_receipt_id, ReceiptId::from_bytes([0x42; 32]));
    assert_eq!(share.encrypted_key.len(), 48);
    assert_eq!(share.decrypt(&recipient).unwrap().as_bytes(), &[0x22; 32]);
    let other = X25519StaticSecret::from_bytes([0x33; 32]);
    assert!(matches!(share.decrypt(&other), Err(PermsError::DecryptionError(_))));
}
