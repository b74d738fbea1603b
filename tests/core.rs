use chainge_kernel::canonical::{canonical_bytes, canonical_header_bytes, decode_receipt, encode_uint};
use chainge_kernel::cid::{
    base32_encode, compare_ids, validate_refs_sorted, RefsError, Sha256Hash, ID_DOMAIN, SIGN_DOMAIN,
};
use chainge_kernel::crypto::{Blake3Hash, Ed25519Signature, Keypair};
use chainge_kernel::receipt::{ReceiptBuilder, ReceiptHeader, ReceiptKind};
use chainge_kernel::stream::{RecordResult, StreamId, StreamState};
use chainge_kernel::types::ReceiptId;
use chainge_kernel::validation::{validate_receipt, ValidationError};

fn make_test_keypair() -> Keypair {
    Keypair::from_seed(&[0x42; 32])
}

#[test]
fn test_canonical_encoding_deterministic() {
    let keypair = Keypair::from_seed(&[0x42; 32]);
    let stream_id = StreamId::derive(&keypair.public_key(), "test");
    let receipt = ReceiptBuilder::new(keypair.public_key(), stream_id, 1)
        .timestamp(1736870400000)
        .kind(ReceiptKind::StreamInit)
        .payload(b"hello".to_vec())
        .sign(&keypair);
    let bytes1 = canonical_bytes(&receipt);
    let bytes2 = canonical_bytes(&receipt);
    assert_eq!(bytes1, bytes2);
}

#[test]
fn test_canonical_header_deterministic() {
    let keypair = Keypair::from_seed(&[0x42; 32]);
    let stream_id = StreamId::derive(&keypair.public_key(), "test");
    let receipt = ReceiptBuilder::new(keypair.public_key(), stream_id, 1)
        .timestamp(1736870400000)
        .kind(ReceiptKind::StreamInit)
        .payload(b"hello".to_vec())
        .sign(&keypair);
    let h1 = canonical_header_bytes(&receipt.header);
    let h2 = canonical_header_bytes(&receipt.header);
    assert_eq!(h1, h2);
}

#[test]
fn test_integer_encoding() {
    let mut buf = Vec::new();
    encode_uint(&mut buf, 0, 0);
    assert_eq!(buf, vec![0x00]);
    buf.clear();
    encode_uint(&mut buf, 0, 23);
    assert_eq!(buf, vec![0x17]);
    buf.clear();
    encode_uint(&mut buf, 0, 24);
    assert_eq!(buf, vec![0x18, 24]);
    buf.clear();
    encode_uint(&mut buf, 0, 255);
    assert_eq!(buf, vec![0x18, 255]);
    buf.clear();
    encode_uint(&mut buf, 0, 256);
    assert_eq!(buf, vec![0x19, 0x01, 0x00]);
    buf.clear();
    encode_uint(&mut buf, 0, 65535);
    assert_eq!(buf, vec![0x19, 0xff, 0xff]);
}

#[test]
fn wide_and_negative_integers_use_shortest_form() {
    let mut buf = Vec::new();
    encode_uint(&mut buf, 0, 65536);
    assert_eq!(buf, vec![0x1a, 0x00, 0x01, 0x00, 0x00]);
    buf.clear();
    encode_uint(&mut buf, 0, 1u64 << 32);
    assert_eq!(buf, vec![0x1b, 0, 0, 0, 1, 0, 0, 0, 0]);
    buf.clear();
    chainge_kernel::canonical::encode_int(&mut buf, -1);
    assert_eq!(buf, vec![0x20]);
    buf.clear();
    chainge_kernel::canonical::encode_int(&mut buf, -25);
    assert_eq!(buf, vec![0x38, 24]);
}

#[test]
fn test_receipt_roundtrip() {
    let keypair = Keypair::from_seed(&[0x42; 32]);
    let stream_id = StreamId::derive(&keypair.public_key(), "test");
    let receipt = ReceiptBuilder::new(keypair.public_key(), stream_id, 1)
        .timestamp(1736870400000)
        .kind(ReceiptKind::StreamInit)
        .payload(b"hello world".to_vec())
        .sign(&keypair);
    let bytes = canonical_bytes(&receipt);
    let decoded = decode_receipt(&bytes).unwrap();
    assert_eq!(receipt.header.version, decoded.header.version);
    assert_eq!(receipt.header.author, decoded.header.author);
    assert_eq!(receipt.header.stream_id, decoded.header.stream_id);
    assert_eq!(receipt.header.seq, decoded.header.seq);
    assert_eq!(receipt.header.timestamp, decoded.header.timestamp);
    assert_eq!(receipt.header.kind, decoded.header.kind);
    assert_eq!(receipt.header.prev_receipt_id, decoded.header.prev_receipt_id);
    assert_eq!(receipt.header.refs, decoded.header.refs);
    assert_eq!(receipt.header.payload_hash, decoded.header.payload_hash);
    assert_eq!(receipt.payload, decoded.payload);
    assert_eq!(receipt.signature, decoded.signature);
}

#[test]
fn roundtrip_with_refs_prev_and_negative_timestamp() {
    let keypair = make_test_keypair();
    let stream_id = StreamId::derive(&keypair.public_key(), "test");
    let receipt = ReceiptBuilder::new(keypair.public_key(), stream_id, 300)
        .timestamp(-5)
        .kind(ReceiptKind::Tombstone)
        .prev(ReceiptId::from_bytes([7; 32]))
        .add_ref(ReceiptId::from_bytes([8; 32]))
        .add_ref(ReceiptId::from_bytes([9; 32]))
        .sign(&keypair);
    let bytes = canonical_bytes(&receipt);
    let decoded = decode_receipt(&bytes).unwrap();
    assert_eq!(decoded.header.seq, 300);
    assert_eq!(decoded.header.timestamp, -5);
    assert_eq!(decoded.header.refs, receipt.header.refs);
    assert_eq!(decoded.header.prev_receipt_id, Some(ReceiptId::from_bytes([7; 32])));
    assert_eq!(canonical_bytes(&decoded), bytes);
}

#[test]
fn decode_rejects_truncated_and_altered_headers() {
    let keypair = make_test_keypair();
    let stream_id = StreamId::derive(&keypair.public_key(), "test");
    let receipt = ReceiptBuilder::new(keypair.public_key(), stream_id, 1)
        .kind(ReceiptKind::StreamInit)
        .payload(b"hello".to_vec())
        .sign(&keypair);
    let bytes = canonical_bytes(&receipt);
    assert!(decode_receipt(&bytes[..bytes.len() - 1 - 5]).is_err());
    assert!(decode_receipt(&[]).is_err());
    let mut wrong_map = bytes.clone();
    wrong_map[0] = 0xa8;
    assert!(decode_receipt(&wrong_map).is_err());
}

#[test]
fn header_map_layout() {
    let keypair = make_test_keypair();
    let stream_id = StreamId::derive(&keypair.public_key(), "test");
    let receipt = ReceiptBuilder::new(keypair.public_key(), stream_id, 1)
        .kind(ReceiptKind::StreamInit)
        .sign(&keypair);
    let h = canonical_header_bytes(&receipt.header);
    assert_eq!(h[0], 0xa9);
    assert_eq!(h[1], 0x00);
    assert_eq!(h[2], 0x00);
    assert_eq!(h[3], 0x01);
    assert_eq!(h[4], 0x58);
    assert_eq!(h[5], 32);
    // total: 2 + 1 + (1 + 34) * 2 + 2 + 2 + 2 + 2 + 2 + 1 + 35
    assert_eq!(h.len(), 2 + 1 + 35 + 35 + 2 + 2 + 2 + 2 + 2 + 35);
    let total = canonical_bytes(&receipt);
    assert_eq!(total.len(), h.len() + 64);
}

#[test]
fn test_receipt_id_from_canonical_bytes() {
    let keypair = Keypair::from_seed(&[0x42; 32]);
    let stream_id = StreamId::derive(&keypair.public_key(), "test");
    let receipt = ReceiptBuilder::new(keypair.public_key(), stream_id, 1)
        .timestamp(1736870400000)
        .kind(ReceiptKind::StreamInit)
        .payload(b"hello".to_vec())
        .sign(&keypair);
    let id1 = receipt.compute_id();
    let bytes = canonical_bytes(&receipt);
    let id2 = ReceiptId(Blake3Hash::hash(&bytes).0);
    assert_eq!(id1, id2);
}

#[test]
fn test_keypair_sign_verify() {
    let keypair = Keypair::generate();
    let message = b"hello world";
    let sig = keypair.sign(message);
    assert!(keypair.public_key().verify(message, &sig).is_ok(), "valid signature should verify");
    assert!(keypair.public_key().verify(b"hello worlD", &sig).is_err());
}

#[test]
fn test_keypair_deterministic_from_seed() {
    let seed = [0x42u8; 32];
    let kp1 = Keypair::from_seed(&seed);
    let kp2 = Keypair::from_seed(&seed);
    assert_eq!(kp1.public_key(), kp2.public_key());
}

#[test]
fn test_blake3_hash() {
    let h1 = Blake3Hash::hash(b"test data");
    let h2 = Blake3Hash::hash(b"test data");
    let h3 = Blake3Hash::hash(b"different data");
    assert_eq!(h1, h2);
    assert_ne!(h1, h3);
}

#[test]
fn hex_is_two_lowercase_digits_per_byte() {
    let id = ReceiptId::from_bytes([0xab; 32]);
    assert_eq!(id.to_hex(), "ab".repeat(32));
    let h = Blake3Hash::from_bytes([0x0f; 32]);
    assert_eq!(h.to_hex(), "0f".repeat(32));
}

#[test]
fn test_receipt_kind_roundtrip() {
    for kind in [
        ReceiptKind::Data,
        ReceiptKind::Tombstone,
        ReceiptKind::StreamInit,
        ReceiptKind::Grant,
        ReceiptKind::Revoke,
        ReceiptKind::KeyShare,
        ReceiptKind::Anchor,
    ] {
        let value = kind.to_u16();
        let recovered = ReceiptKind::from_u16(value).unwrap();
        assert_eq!(kind, recovered);
    }
}

#[test]
fn receipt_kind_wire_values() {
    assert_eq!(ReceiptKind::Data.to_u16(), 0x0001);
    assert_eq!(ReceiptKind::Grant.to_u16(), 0x0100);
    assert_eq!(ReceiptKind::Anchor.to_u16(), 0x0200);
    assert_eq!(ReceiptKind::from_u16(0x0004), None);
}

#[test]
fn test_receipt_kind_categories() {
    assert!(ReceiptKind::Data.is_core());
    assert!(ReceiptKind::Tombstone.is_core());
    assert!(ReceiptKind::StreamInit.is_core());
    assert!(ReceiptKind::Grant.is_permission());
    assert!(ReceiptKind::Revoke.is_permission());
    assert!(ReceiptKind::KeyShare.is_permission());
    assert!(ReceiptKind::Anchor.is_sync());
}

#[test]
fn test_receipt_builder() {
    let keypair = Keypair::generate();
    let stream_id = StreamId::derive(&keypair.public_key(), "test");
    let receipt = ReceiptBuilder::new(keypair.public_key(), stream_id, 1)
        .timestamp(1234567890000)
        .kind(ReceiptKind::StreamInit)
        .payload(b"hello".to_vec())
        .sign(&keypair);
    assert_eq!(receipt.header.version, 0);
    assert_eq!(receipt.header.seq, 1);
    assert_eq!(receipt.header.kind, ReceiptKind::StreamInit);
    assert!(receipt.is_stream_init());
}

#[test]
fn test_receipt_id_deterministic() {
    let keypair = Keypair::from_seed(&[0x42; 32]);
    let stream_id = StreamId::derive(&keypair.public_key(), "test");
    let r1 = ReceiptBuilder::new(keypair.public_key(), stream_id, 1)
        .timestamp(1234567890000)
        .kind(ReceiptKind::StreamInit)
        .payload(b"hello".to_vec())
        .sign(&keypair);
    let r2 = ReceiptBuilder::new(keypair.public_key(), stream_id, 1)
        .timestamp(1234567890000)
        .kind(ReceiptKind::StreamInit)
        .payload(b"hello".to_vec())
        .sign(&keypair);
    assert_eq!(r1.compute_id(), r2.compute_id());
}

#[test]
fn test_tombstone_receipt() {
    let keypair = Keypair::from_seed(&[0x42; 32]);
    let stream_id = StreamId::derive(&keypair.public_key(), "test");
    let target = ReceiptId::from_bytes([0xab; 32]);
    let receipt = ReceiptBuilder::new(keypair.public_key(), stream_id, 2)
        .timestamp(1234567890000)
        .kind(ReceiptKind::Tombstone)
        .prev(ReceiptId::from_bytes([0x01; 32]))
        .add_ref(target)
        .sign(&keypair);
    assert!(receipt.is_tombstone());
    assert_eq!(receipt.tombstoned_receipt(), Some(&target));
}

#[test]
fn tombstone_header_has_empty_payload_hash() {
    let kp = make_test_keypair();
    let sid = StreamId::derive(&kp.public_key(), "test");
    let h = ReceiptHeader::new_tombstone(
        kp.public_key(),
        sid,
        2,
        0,
        ReceiptId::from_bytes([1; 32]),
        ReceiptId::from_bytes([2; 32]),
    );
    assert_eq!(h.payload_hash, Blake3Hash::hash(&[]));
    assert_eq!(h.refs, vec![ReceiptId::from_bytes([2; 32])]);
}

#[test]
fn test_stream_id_derivation() {
    let keypair = Keypair::generate();
    let id1 = StreamId::derive(&keypair.public_key(), "test-stream");
    let id2 = StreamId::derive(&keypair.public_key(), "test-stream");
    assert_eq!(id1, id2);
    let id3 = StreamId::derive(&keypair.public_key(), "other-stream");
    assert_ne!(id1, id3);
}

#[test]
fn stream_id_is_hash_of_domain_author_and_name() {
    let kp = make_test_keypair();
    let mut msg = b"chainge-stream-v0:".to_vec();
    msg.extend_from_slice(&kp.public_key().0);
    msg.push(b':');
    msg.extend_from_slice(b"test");
    assert_eq!(StreamId::derive(&kp.public_key(), "test").0, Blake3Hash::hash(&msg).0);
}

#[test]
fn test_stream_id_different_authors() {
    let kp1 = Keypair::generate();
    let kp2 = Keypair::generate();
    let id1 = StreamId::derive(&kp1.public_key(), "shared-name");
    let id2 = StreamId::derive(&kp2.public_key(), "shared-name");
    assert_ne!(id1, id2);
}

#[test]
fn test_stream_state_contiguous_append() {
    let keypair = Keypair::generate();
    let mut state = StreamState::new(keypair.public_key(), "test".to_string(), 1000);
    let r1 = ReceiptId::from_bytes([1; 32]);
    let r2 = ReceiptId::from_bytes([2; 32]);
    let r3 = ReceiptId::from_bytes([3; 32]);
    assert_eq!(state.record_receipt(1, r1, 1001), RecordResult::Accepted);
    assert_eq!(state.head_seq, 1);
    assert!(state.is_healthy());
    assert_eq!(state.record_receipt(2, r2, 1002), RecordResult::Accepted);
    assert_eq!(state.head_seq, 2);
    assert_eq!(state.record_receipt(3, r3, 1003), RecordResult::Accepted);
    assert_eq!(state.head_seq, 3);
}

#[test]
fn test_stream_state_gap_detection() {
    let keypair = Keypair::generate();
    let mut state = StreamState::new(keypair.public_key(), "test".to_string(), 1000);
    let r1 = ReceiptId::from_bytes([1; 32]);
    let r5 = ReceiptId::from_bytes([5; 32]);
    state.record_receipt(1, r1, 1001);
    assert_eq!(state.head_seq, 1);
    assert_eq!(state.record_receipt(5, r5, 1002), RecordResult::AcceptedWithGaps);
    assert_eq!(state.head_seq, 1);
    assert_eq!(state.known_max_seq, 5);
    assert_eq!(state.missing_seqs(), vec![2, 3, 4]);
    assert!(state.health.has_gaps());
}

#[test]
fn test_stream_state_gap_filling() {
    let keypair = Keypair::generate();
    let mut state = StreamState::new(keypair.public_key(), "test".to_string(), 1000);
    state.record_receipt(1, ReceiptId::from_bytes([1; 32]), 1001);
    state.record_receipt(5, ReceiptId::from_bytes([5; 32]), 1002);
    assert_eq!(state.record_receipt(3, ReceiptId::from_bytes([3; 32]), 1003), RecordResult::GapFilled);
    assert_eq!(state.missing_seqs(), vec![2, 4]);
    state.record_receipt(2, ReceiptId::from_bytes([2; 32]), 1004);
    assert_eq!(state.missing_seqs(), vec![4]);
    state.record_receipt(4, ReceiptId::from_bytes([4; 32]), 1005);
    assert!(state.missing_seqs().is_empty());
    assert!(state.is_healthy());
}

#[test]
fn test_stream_state_duplicate() {
    let keypair = Keypair::generate();
    let mut state = StreamState::new(keypair.public_key(), "test".to_string(), 1000);
    state.record_receipt(1, ReceiptId::from_bytes([1; 32]), 1001);
    assert_eq!(state.record_receipt(1, ReceiptId::from_bytes([1; 32]), 1002), RecordResult::Duplicate);
}

#[test]
fn test_stream_state_fork() {
    let keypair = Keypair::generate();
    let mut state = StreamState::new(keypair.public_key(), "test".to_string(), 1000);
    let r1 = ReceiptId::from_bytes([1; 32]);
    let r1_alt = ReceiptId::from_bytes([0xff; 32]);
    state.record_receipt(1, r1, 1001);
    state.mark_forked(1, vec![r1, r1_alt], 1002);
    assert!(state.is_forked());
    assert!(!state.is_healthy());
    match &state.health {
        chainge_kernel::stream::StreamHealth::Forked { at_seq, receipts } => {
            assert_eq!(*at_seq, 1);
            assert_eq!(receipts.len(), 2);
        }
        _ => panic!("expected forked"),
    }
}

#[test]
fn fork_mark_is_sticky_across_gap_fills() {
    let kp = make_test_keypair();
    let mut state = StreamState::new(kp.public_key(), "test".to_string(), 0);
    state.record_receipt(1, ReceiptId::from_bytes([1; 32]), 1);
    state.record_receipt(3, ReceiptId::from_bytes([3; 32]), 2);
    state.mark_forked(1, vec![], 3);
    state.record_receipt(2, ReceiptId::from_bytes([2; 32]), 4);
    assert!(state.is_forked());
}

#[test]
fn try_advance_head_stops_at_first_missing() {
    let kp = make_test_keypair();
    let mut state = StreamState::new(kp.public_key(), "test".to_string(), 0);
    state.record_receipt(1, ReceiptId::from_bytes([1; 32]), 1);
    state.record_receipt(5, ReceiptId::from_bytes([5; 32]), 2);
    assert_eq!(state.missing_seqs(), vec![2, 3, 4]);
    state.gaps = vec![4];
    assert_eq!(state.head_seq, 1);
    let present = [1u64, 2, 3, 5];
    let moved = state.try_advance_head(|s| {
        if present.contains(&s) {
            Some(ReceiptId::from_bytes([s as u8; 32]))
        } else {
            None
        }
    });
    assert_eq!(moved, Some(3));
    assert_eq!(state.head_receipt_id, Some(ReceiptId::from_bytes([3; 32])));
    assert_eq!(state.missing_seqs(), vec![4]);
}

#[test]
fn test_receipt_id_hex_roundtrip() {
    let id = ReceiptId::from_bytes([0x42; 32]);
    let hex = id.to_hex();
    let recovered = ReceiptId::from_hex(&hex).unwrap();
    assert_eq!(id, recovered);
}

#[test]
fn test_public_key_hex_roundtrip() {
    let kp = Keypair::generate();
    let pk = kp.public_key();
    let hex = pk.to_hex();
    let recovered = chainge_kernel::crypto::Ed25519PublicKey::from_hex(&hex).unwrap();
    assert_eq!(pk, recovered);
}

#[test]
fn test_stream_id_hex_roundtrip() {
    let kp = Keypair::generate();
    let id = StreamId::derive(&kp.public_key(), "test");
    let hex = id.to_hex();
    let recovered = StreamId::from_hex(&hex).unwrap();
    assert_eq!(id, recovered);
}

#[test]
fn from_hex_rejects_bad_input() {
    use_hex_errors();
}

fn use_hex_errors() {
    assert_eq!(ReceiptId::from_hex("zz"), Err(chainge_kernel::bytes::HexError::InvalidHex));
    assert_eq!(ReceiptId::from_hex("abcd"), Err(chainge_kernel::bytes::HexError::InvalidStringLength));
}

#[test]
fn test_receipt_id_display() {
    let id = ReceiptId::from_bytes([0xab; 32]);
    let display = id.to_string();
    assert_eq!(display, "abababababababab");
}

#[test]
fn test_receipt_id_debug() {
    let id = ReceiptId::from_bytes([0xcd; 32]);
    let debug = format!("{:?}", id);
    assert!(debug.starts_with("ReceiptId("));
}

#[test]
fn test_valid_stream_init() {
    let keypair = make_test_keypair();
    let stream_id = StreamId::derive(&keypair.public_key(), "test");
    let receipt = ReceiptBuilder::new(keypair.public_key(), stream_id, 1)
        .timestamp(1736870400000)
        .kind(ReceiptKind::StreamInit)
        .payload(b"hello".to_vec())
        .sign(&keypair);
    assert!(validate_receipt(&receipt).is_ok());
}

#[test]
fn test_valid_data_receipt() {
    let keypair = make_test_keypair();
    let stream_id = StreamId::derive(&keypair.public_key(), "test");
    let receipt = ReceiptBuilder::new(keypair.public_key(), stream_id, 2)
        .timestamp(1736870400000)
        .kind(ReceiptKind::Data)
        .prev(ReceiptId::from_bytes([0xab; 32]))
        .payload(b"world".to_vec())
        .sign(&keypair);
    assert!(validate_receipt(&receipt).is_ok());
}

#[test]
fn test_invalid_signature() {
    let keypair = make_test_keypair();
    let stream_id = StreamId::derive(&keypair.public_key(), "test");
    let mut receipt = ReceiptBuilder::new(keypair.public_key(), stream_id, 1)
        .timestamp(1736870400000)
        .kind(ReceiptKind::StreamInit)
        .payload(b"hello".to_vec())
        .sign(&keypair);
    receipt.signature = Ed25519Signature::from_bytes([0xff; 64]);
    assert!(matches!(validate_receipt(&receipt), Err(ValidationError::SignatureFailed)));
}

#[test]
fn test_payload_hash_mismatch() {
    let keypair = make_test_keypair();
    let stream_id = StreamId::derive(&keypair.public_key(), "test");
    let mut receipt = ReceiptBuilder::new(keypair.public_key(), stream_id, 1)
        .timestamp(1736870400000)
        .kind(ReceiptKind::StreamInit)
        .payload(b"hello".to_vec())
        .sign(&keypair);
    receipt.payload = b"tampered".to_vec();
    assert!(matches!(validate_receipt(&receipt), Err(ValidationError::PayloadHashMismatch)));
}

#[test]
fn test_stream_init_wrong_seq() {
    let keypair = make_test_keypair();
    let stream_id = StreamId::derive(&keypair.public_key(), "test");
    let receipt = ReceiptBuilder::new(keypair.public_key(), stream_id, 5)
        .timestamp(1736870400000)
        .kind(ReceiptKind::StreamInit)
        .payload(b"hello".to_vec())
        .sign(&keypair);
    assert!(matches!(
        validate_receipt(&receipt),
        Err(ValidationError::InvalidSequence { expected: 1, got: 5 })
    ));
}

#[test]
fn test_stream_init_with_prev() {
    let keypair = make_test_keypair();
    let stream_id = StreamId::derive(&keypair.public_key(), "test");
    let receipt = ReceiptBuilder::new(keypair.public_key(), stream_id, 1)
        .timestamp(1736870400000)
        .kind(ReceiptKind::StreamInit)
        .prev(ReceiptId::from_bytes([0xab; 32]))
        .payload(b"hello".to_vec())
        .sign(&keypair);
    assert!(matches!(validate_receipt(&receipt), Err(ValidationError::InvalidPrevReceipt { .. })));
}

#[test]
fn test_tombstone_missing_ref() {
    let keypair = make_test_keypair();
    let stream_id = StreamId::derive(&keypair.public_key(), "test");
    let receipt = ReceiptBuilder::new(keypair.public_key(), stream_id, 2)
        .timestamp(1736870400000)
        .kind(ReceiptKind::Tombstone)
        .prev(ReceiptId::from_bytes([0xab; 32]))
        .payload(b"".to_vec())
        .sign(&keypair);
    assert!(matches!(validate_receipt(&receipt), Err(ValidationError::TombstoneMissingRef)));
}

#[test]
fn test_valid_tombstone() {
    let keypair = make_test_keypair();
    let stream_id = StreamId::derive(&keypair.public_key(), "test");
    let receipt = ReceiptBuilder::new(keypair.public_key(), stream_id, 2)
        .timestamp(1736870400000)
        .kind(ReceiptKind::Tombstone)
        .prev(ReceiptId::from_bytes([0xab; 32]))
        .add_ref(ReceiptId::from_bytes([0xcd; 32]))
        .payload(b"".to_vec())
        .sign(&keypair);
    assert!(validate_receipt(&receipt).is_ok());
}

#[test]
fn validation_test_too_many_refs() {
    let keypair = make_test_keypair();
    let stream_id = StreamId::derive(&keypair.public_key(), "test");
    let mut builder = ReceiptBuilder::new(keypair.public_key(), stream_id, 1)
        .timestamp(1736870400000)
        .kind(ReceiptKind::StreamInit)
        .payload(b"hello".to_vec());
    for i in 0..17u8 {
        builder = builder.add_ref(ReceiptId::from_bytes([i; 32]));
    }
    let receipt = builder.sign(&keypair);
    assert!(matches!(validate_receipt(&receipt), Err(ValidationError::TooManyRefs)));
}

#[test]
fn test_seq_gt_1_without_prev() {
    let keypair = make_test_keypair();
    let stream_id = StreamId::derive(&keypair.public_key(), "test");
    let receipt = ReceiptBuilder::new(keypair.public_key(), stream_id, 2)
        .timestamp(1736870400000)
        .kind(ReceiptKind::Data)
        .payload(b"hello".to_vec())
        .sign(&keypair);
    assert!(matches!(validate_receipt(&receipt), Err(ValidationError::StructuralError(_))));
}

#[test]
fn unsupported_version_is_rejected_first() {
    let keypair = make_test_keypair();
    let stream_id = StreamId::derive(&keypair.public_key(), "test");
    let mut receipt = ReceiptBuilder::new(keypair.public_key(), stream_id, 1)
        .kind(ReceiptKind::StreamInit)
        .sign(&keypair);
    receipt.header.version = 3;
    assert!(matches!(validate_receipt(&receipt), Err(ValidationError::UnsupportedVersion(3))));
}

#[test]
fn test_base32_encode() {
    assert_eq!(base32_encode(b""), "");
    assert_eq!(base32_encode(b"f"), "my");
    assert_eq!(base32_encode(b"fo"), "mzxq");
    assert_eq!(base32_encode(b"foo"), "mzxw6");
    assert_eq!(base32_encode(b"foob"), "mzxw6yq");
    assert_eq!(base32_encode(b"fooba"), "mzxw6ytb");
    assert_eq!(base32_encode(b"foobar"), "mzxw6ytboi");
}

#[test]
fn test_sha256_hash() {
    let h1 = Sha256Hash::hash(b"test");
    let h2 = Sha256Hash::hash(b"test");
    let h3 = Sha256Hash::hash(b"different");
    assert_eq!(h1, h2);
    assert_ne!(h1, h3);
    assert_eq!(
        Sha256Hash::hash(b"").to_hex(),
        "e3b0c44298fc1c149afbf4c8996fb92427ae41e4649b934ca495991b7852b855"
    );
}

#[test]
fn crypto_test_cid_format() {
    let hash = Sha256Hash::hash(b"hello");
    let cid = hash.to_cid();
    assert!(cid.starts_with("bafyrei"));
    assert_eq!(cid.len(), 1 + (36 * 8 + 4) / 5);
}

#[test]
fn test_domain_prefix_exact_bytes() {
    assert_eq!(&SIGN_DOMAIN, b"chainge/receipt-sig/v1");
    assert_eq!(SIGN_DOMAIN.len(), 22);
    assert_eq!(&ID_DOMAIN, b"chainge/receipt-id/v1");
    assert_eq!(ID_DOMAIN.len(), 21);
    assert!(SIGN_DOMAIN.iter().all(|&b| b != 0));
    assert!(ID_DOMAIN.iter().all(|&b| b != 0));
}

#[test]
fn sign_message_prefixes_the_domain() {
    let msg = chainge_kernel::cid::sign_message(b"abc");
    assert_eq!(&msg[..22], b"chainge/receipt-sig/v1");
    assert_eq!(&msg[22..], b"abc");
}

#[test]
fn refs_order_checks() {
    let a = ReceiptId::from_bytes([1; 32]);
    let mut b_bytes = [1u8; 32];
    b_bytes[31] = 2;
    let b = ReceiptId::from_bytes(b_bytes);
    assert_eq!(compare_ids(&a, &b), -1);
    assert_eq!(compare_ids(&b, &a), 1);
    assert_eq!(compare_ids(&a, &a), 0);
    assert_eq!(validate_refs_sorted(&vec![a, b]), Ok(()));
    assert_eq!(validate_refs_sorted(&vec![b, a]), Err(RefsError::RefsNotSorted));
    assert_eq!(validate_refs_sorted(&vec![a, a]), Err(RefsError::RefsDuplicate));
    assert_eq!(validate_refs_sorted(&vec![]), Ok(()));
}

#[test]
fn normalize_refs_sorts_and_rejects_duplicates() {
    let a = ReceiptId::from_bytes([3; 32]);
    let b = ReceiptId::from_bytes([1; 32]);
    let c = ReceiptId::from_bytes([2; 32]);
    let sorted = chainge_kernel::cid::normalize_refs(vec![a, b, c]).unwrap();
    assert_eq!(sorted, vec![b, c, a]);
    assert_eq!(validate_refs_sorted(&sorted), Ok(()));
    assert_eq!(chainge_kernel::cid::normalize_refs(vec![a, b, a]), Err(RefsError::RefsDuplicate));
    assert_eq!(chainge_kernel::cid::normalize_refs(vec![]), Ok(vec![]));
}

#[test]
fn recorded_positions_stay_out_of_the_gaps() {
    let kp = make_test_keypair();
    let mut state = StreamState::new(kp.public_key(), "test".to_string(), 0);
    state.record_receipt(1, ReceiptId::from_bytes([1; 32]), 1);
    state.record_receipt(5, ReceiptId::from_bytes([5; 32]), 2);
    assert_eq!(state.record_receipt(3, ReceiptId::from_bytes([3; 32]), 3), RecordResult::GapFilled);
    assert_eq!(state.record_receipt(7, ReceiptId::from_bytes([7; 32]), 4), RecordResult::AcceptedWithGaps);
    assert_eq!(state.missing_seqs(), vec![2, 4, 6]);
    assert_eq!(state.known_max_seq, 7);
    assert!(state.health.has_gaps());
}
