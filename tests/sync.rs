use chainge_kernel::canonical::canonical_bytes;
use chainge_kernel::crypto::Keypair;
use chainge_kernel::receipt::{Receipt, ReceiptBuilder, ReceiptKind};
use chainge_kernel::store::{InsertResult, MemoryStore};
use chainge_kernel::stream::{StreamHealth, StreamId};
use chainge_kernel::sync::{
    check_hello, compute_needs, compute_stream_state_hash, sync_stores, verify_convergence, ConvergenceResult,
    on_event, NodeId, ReceiptRequest, SeqRange, StreamHead, SyncAction, SyncError, SyncErrorCode, SyncEvent, SyncMessage,
    SyncPhase, MAX_SEQ_LIST,
};
use chainge_kernel::types::ReceiptId;

const TS: i64 = 1736870400000;

fn chain(kp: &Keypair, name: &str, n: u64) -> Vec<Receipt> {
    let sid = StreamId::derive(&kp.public_key(), name);
    let mut out: Vec<Receipt> = Vec::new();
    for seq in 1..=n {
        let mut b = ReceiptBuilder::new(kp.public_key(), sid, seq)
            .timestamp(TS)
            .payload(format!("payload {}", seq).into_bytes());
        if seq == 1 {
            b = b.kind(ReceiptKind::StreamInit);
        } else {
            b = b.kind(ReceiptKind::Data).prev(out[(seq - 2) as usize].compute_id());
        }
        out.push(b.sign(kp));
    }
    out
}

fn ingest(store: &mut MemoryStore, r: &Receipt) -> InsertResult {
    let bytes = canonical_bytes(r);
    store.insert_and_update_stream(r, &bytes, 0)
}

#[test]
fn test_seq_range_single() {
    let range = SeqRange::Single(5);
    assert_eq!(range.to_vec(), vec![5]);
    assert_eq!(range.count(), 1);
}

#[test]
fn test_seq_range_range() {
    let range = SeqRange::Range { start: 3, end: 7 };
    assert_eq!(range.to_vec(), vec![3, 4, 5, 6, 7]);
    assert_eq!(range.count(), 5);
}

#[test]
fn test_seq_range_list() {
    let range = SeqRange::List(vec![1, 5, 9]);
    assert_eq!(range.to_vec(), vec![1, 5, 9]);
    assert_eq!(range.count(), 3);
}

#[test]
fn empty_seq_range() {
    let range = SeqRange::Range { start: 7, end: 3 };
    assert!(range.to_vec().is_empty());
    assert_eq!(range.count(), 0);
}

#[test]
fn test_message_limits_valid() {
    let msg = SyncMessage::Hello {
        node_id: NodeId::from_bytes([0; 32]),
        protocol_version: 0,
        streams_of_interest: vec![StreamId::from_bytes([1; 32])],
    };
    assert!(msg.validate_limits().is_ok());
}

#[test]
fn test_message_limits_exceeded() {
    let msg = SyncMessage::Hello {
        node_id: NodeId::from_bytes([0; 32]),
        protocol_version: 0,
        streams_of_interest: vec![StreamId::from_bytes([1; 32]); 200],
    };
    assert!(msg.validate_limits().is_err());
}

#[test]
fn seq_list_cap_is_enforced() {
    let ok = SyncMessage::NeedReceipts {
        requests: vec![ReceiptRequest {
            stream_id: StreamId::from_bytes([1; 32]),
            seqs: SeqRange::List(vec![1; MAX_SEQ_LIST]),
        }],
    };
    assert!(ok.validate_limits().is_ok());
    let too_many = SyncMessage::NeedReceipts {
        requests: vec![ReceiptRequest {
            stream_id: StreamId::from_bytes([1; 32]),
            seqs: SeqRange::List(vec![1; MAX_SEQ_LIST + 1]),
        }],
    };
    assert!(too_many.validate_limits().is_err());
    let acks = SyncMessage::Ack { received: vec![ReceiptId::from_bytes([0; 32]); 101] };
    assert!(acks.validate_limits().is_err());
}

#[test]
fn hello_checks_peer_and_version() {
    let a = NodeId::from_bytes([1; 32]);
    let b = NodeId::from_bytes([2; 32]);
    assert!(check_hello(&a, &a, 0).is_ok());
    assert!(matches!(check_hello(&a, &b, 0), Err(SyncError::InvalidMessage(_))));
    assert_eq!(check_hello(&a, &a, 1), Err(SyncError::VersionMismatch { local: 0, peer: 1 }));
}

#[test]
fn test_memory_store_basic() {
    let kp = Keypair::from_seed(&[0x42; 32]);
    let rs = chain(&kp, "test", 1);
    let mut store = MemoryStore::new();
    assert_eq!(ingest(&mut store, &rs[0]), InsertResult::Inserted);
    let id = rs[0].compute_id();
    assert!(store.has_receipt(&id));
    assert_eq!(store.get_receipt(&id).unwrap().compute_id(), id);
    assert_eq!(store.get_canonical_bytes(&id).unwrap(), &canonical_bytes(&rs[0]));
}

#[test]
fn test_memory_store_idempotent() {
    let kp = Keypair::from_seed(&[0x42; 32]);
    let rs = chain(&kp, "test", 1);
    let mut store = MemoryStore::new();
    assert_eq!(ingest(&mut store, &rs[0]), InsertResult::Inserted);
    assert_eq!(ingest(&mut store, &rs[0]), InsertResult::AlreadyExists);
    let st = store.get_stream_state(rs[0].stream_id()).unwrap();
    assert_eq!(st.head_seq, 1);
}

#[test]
fn scenario_stream_init_round_trip() {
    let kp = Keypair::from_seed(&[0x42; 32]);
    let sid = StreamId::derive(&kp.public_key(), "test");
    let r = ReceiptBuilder::new(kp.public_key(), sid, 1)
        .timestamp(TS)
        .kind(ReceiptKind::StreamInit)
        .payload(b"hello".to_vec())
        .sign(&kp);
    let bytes = canonical_bytes(&r);
    let d = chainge_kernel::canonical::decode_receipt(&bytes).unwrap();
    assert_eq!(d.header.seq, 1);
    assert_eq!(d.header.kind, ReceiptKind::StreamInit);
    assert_eq!(d.payload, b"hello".to_vec());
    assert!(chainge_kernel::validation::validate_receipt(&d).is_ok());
    assert_eq!(d.compute_id(), r.compute_id());
}

#[test]
fn scenario_append_chain() {
    let kp = Keypair::from_seed(&[0x42; 32]);
    let sid = StreamId::derive(&kp.public_key(), "test");
    let r1 = ReceiptBuilder::new(kp.public_key(), sid, 1)
        .timestamp(TS)
        .kind(ReceiptKind::StreamInit)
        .payload(b"hello".to_vec())
        .sign(&kp);
    let r2 = ReceiptBuilder::new(kp.public_key(), sid, 2)
        .timestamp(TS)
        .kind(ReceiptKind::Data)
        .prev(r1.compute_id())
        .payload(b"world".to_vec())
        .sign(&kp);
    let mut store = MemoryStore::new();
    ingest(&mut store, &r1);
    ingest(&mut store, &r2);
    let st = store.get_stream_state(&sid).unwrap();
    assert_eq!(st.head_seq, 2);
    assert_eq!(st.head_receipt_id, Some(r2.compute_id()));
    assert!(st.gaps.is_empty());
    assert_eq!(st.health, StreamHealth::Healthy);
}

#[test]
fn scenario_gap_fill() {
    let kp = Keypair::from_seed(&[0x42; 32]);
    let rs = chain(&kp, "test", 5);
    let sid = *rs[0].stream_id();
    let mut store = MemoryStore::new();
    ingest(&mut store, &rs[0]);
    ingest(&mut store, &rs[4]);
    {
        let st = store.get_stream_state(&sid).unwrap();
        assert_eq!(st.head_seq, 1);
        assert_eq!(st.gaps, vec![2, 3, 4]);
        assert_eq!(st.health, StreamHealth::HasGaps { missing: vec![2, 3, 4] });
    }
    ingest(&mut store, &rs[2]);
    {
        let st = store.get_stream_state(&sid).unwrap();
        assert_eq!(st.head_seq, 1);
        assert_eq!(st.gaps, vec![2, 4]);
    }
    ingest(&mut store, &rs[1]);
    ingest(&mut store, &rs[3]);
    let st = store.get_stream_state(&sid).unwrap();
    assert_eq!(st.head_seq, 5);
    assert!(st.gaps.is_empty());
    assert_eq!(st.health, StreamHealth::Healthy);
    assert_eq!(st.head_receipt_id, Some(rs[4].compute_id()));
}

#[test]
fn scenario_fork_detection() {
    let kp = Keypair::from_seed(&[0x42; 32]);
    let sid = StreamId::derive(&kp.public_key(), "test");
    let a = ReceiptBuilder::new(kp.public_key(), sid, 1)
        .timestamp(TS)
        .kind(ReceiptKind::StreamInit)
        .payload(b"one".to_vec())
        .sign(&kp);
    let b = ReceiptBuilder::new(kp.public_key(), sid, 1)
        .timestamp(TS)
        .kind(ReceiptKind::StreamInit)
        .payload(b"two".to_vec())
        .sign(&kp);
    let mut store = MemoryStore::new();
    assert_eq!(ingest(&mut store, &a), InsertResult::Inserted);
    assert_eq!(ingest(&mut store, &b), InsertResult::Conflict { existing: a.compute_id() });
    let st = store.get_stream_state(&sid).unwrap();
    assert_eq!(
        st.health,
        StreamHealth::Forked { at_seq: 1, receipts: vec![a.compute_id(), b.compute_id()] }
    );
    let forks = store.get_forks(&sid);
    assert_eq!(forks.len(), 2);
    assert_eq!(forks[0].receipt_id, a.compute_id());
    assert_eq!(forks[1].receipt_id, b.compute_id());
    assert_eq!(ingest(&mut store, &b), InsertResult::Conflict { existing: a.compute_id() });
    assert_eq!(store.get_forks(&sid).len(), 2);
}

#[test]
fn needs_ask_past_head_and_for_gaps() {
    let kp = Keypair::from_seed(&[0x42; 32]);
    let rs = chain(&kp, "test", 5);
    let sid = *rs[0].stream_id();
    let mut store = MemoryStore::new();
    ingest(&mut store, &rs[0]);
    ingest(&mut store, &rs[2]);
    let heads = vec![StreamHead { stream_id: sid, head_seq: 5, head_receipt_id: rs[4].compute_id() }];
    let needs = compute_needs(&store, &heads);
    assert_eq!(
        needs,
        vec![
            ReceiptRequest { stream_id: sid, seqs: SeqRange::Range { start: 2, end: 5 } },
            ReceiptRequest { stream_id: sid, seqs: SeqRange::List(vec![2]) },
        ]
    );
}

#[test]
fn test_state_hash_deterministic() {
    let kp = Keypair::from_seed(&[0x42; 32]);
    let rs = chain(&kp, "test", 3);
    let sid = *rs[0].stream_id();
    let mut store = MemoryStore::new();
    for r in &rs {
        ingest(&mut store, r);
    }
    let h1 = compute_stream_state_hash(&store, &sid).unwrap();
    let h2 = compute_stream_state_hash(&store, &sid).unwrap();
    assert_eq!(h1, h2);
    let mut msg = b"chainge-state-v0:".to_vec();
    msg.extend_from_slice(&sid.0);
    let mut h = blake3::hash(&msg);
    for r in &rs {
        let mut m = h.as_bytes().to_vec();
        m.extend_from_slice(&r.compute_id().0);
        h = blake3::hash(&m);
    }
    assert_eq!(&h1.0, h.as_bytes());
}

#[test]
fn test_convergence_verified() {
    let kp = Keypair::from_seed(&[0x42; 32]);
    let rs = chain(&kp, "test", 3);
    let sid = *rs[0].stream_id();
    let mut store = MemoryStore::new();
    for r in &rs {
        ingest(&mut store, r);
    }
    let hash = compute_stream_state_hash(&store, &sid).unwrap();
    let result = verify_convergence(&store, &sid, 3, &rs[2].compute_id(), Some(&hash));
    assert!(result.is_converged());
}

#[test]
fn test_convergence_head_mismatch() {
    let kp = Keypair::from_seed(&[0x42; 32]);
    let rs = chain(&kp, "test", 3);
    let sid = *rs[0].stream_id();
    let mut store = MemoryStore::new();
    for r in &rs {
        ingest(&mut store, r);
    }
    let result = verify_convergence(&store, &sid, 5, &rs[2].compute_id(), None);
    assert!(!result.is_converged());
    let forked = verify_convergence(&store, &sid, 3, &ReceiptId::from_bytes([9; 32]), None);
    assert!(forked.is_forked());
    assert_eq!(
        forked,
        ConvergenceResult::Forked {
            at_seq: 3,
            local_receipt_id: rs[2].compute_id(),
            remote_receipt_id: ReceiptId::from_bytes([9; 32]),
        }
    );
}

#[test]
fn scenario_sync_converges() {
    let kp = Keypair::from_seed(&[0x42; 32]);
    let rs = chain(&kp, "test", 3);
    let sid = *rs[0].stream_id();
    let mut a = MemoryStore::new();
    let mut b = MemoryStore::new();
    for r in &rs {
        ingest(&mut a, r);
    }
    ingest(&mut b, &rs[0]);
    let report = sync_stores(&mut b, &mut a, true, 0);
    assert!(report.success);
    assert_eq!(report.received_count, 2);
    assert_eq!(report.invalid_count, 0);
    let st = b.get_stream_state(&sid).unwrap();
    assert_eq!(st.head_seq, 3);
    assert_eq!(st.head_receipt_id, Some(rs[2].compute_id()));
    assert_eq!(compute_stream_state_hash(&a, &sid), compute_stream_state_hash(&b, &sid));
    let again = sync_stores(&mut b, &mut a, true, 0);
    assert_eq!(again.received_count, 0);
}

#[test]
fn session_phases_follow_the_protocol() {
    let peer = NodeId::from_bytes([2; 32]);
    let (p, a) = on_event(SyncPhase::AwaitHello, &SyncEvent::Hello { from: peer, protocol_version: 0 }, &peer);
    assert_eq!(p, SyncPhase::AwaitHeads);
    assert!(matches!(a, SyncAction::SendHeads));
    let (p, a) = on_event(SyncPhase::AwaitHello, &SyncEvent::Hello { from: peer, protocol_version: 9 }, &peer);
    assert_eq!(p, SyncPhase::Done);
    assert!(matches!(a, SyncAction::Fail(SyncError::VersionMismatch { local: 0, peer: 9 })));
    let (_, a) = on_event(SyncPhase::AwaitHeads, &SyncEvent::Timeout, &peer);
    assert!(matches!(a, SyncAction::Fail(SyncError::Timeout(_))));
    let (p, a) = on_event(SyncPhase::AwaitHeads, &SyncEvent::StreamHeads, &peer);
    assert_eq!(p, SyncPhase::Exchange { peer_finished: false, we_finished: false });
    assert!(matches!(a, SyncAction::RequestNeeds));
    let (p, a) = on_event(p, &SyncEvent::Ack, &peer);
    assert!(matches!(a, SyncAction::SendEndMarker));
    let (p2, a) = on_event(p, &SyncEvent::Receipts, &peer);
    assert_eq!(p2, p);
    assert!(matches!(a, SyncAction::Ingest));
    let (p, a) = on_event(p, &SyncEvent::Ack, &peer);
    assert_eq!(p, SyncPhase::Done);
    assert!(matches!(a, SyncAction::Finish));
    let (p, a) = on_event(
        SyncPhase::Exchange { peer_finished: false, we_finished: false },
        &SyncEvent::PeerError { code: SyncErrorCode::RateLimited, message: "slow".to_string() },
        &peer,
    );
    assert_eq!(p, SyncPhase::Done);
    assert!(matches!(a, SyncAction::Fail(SyncError::PeerError { code: SyncErrorCode::RateLimited, .. })));
    let (p, a) = on_event(SyncPhase::Exchange { peer_finished: true, we_finished: false }, &SyncEvent::Timeout, &peer);
    assert_eq!(p, SyncPhase::Done);
    assert!(matches!(a, SyncAction::Finish));
}

#[test]
fn default_configs() {
    let c = chainge_kernel::sync::SyncConfig::default();
    assert_eq!(c.message_timeout_ms, 30000);
    assert_eq!(c.max_batch_size, 50);
    assert!(c.validate_receipts);
    assert!(chainge_kernel::kernel::KernelConfig::default().validate_on_ingest);
}

#[test]
fn verify_all_and_list_streams() {
    let kp = Keypair::from_seed(&[0x42; 32]);
    let other = Keypair::from_seed(&[0x43; 32]);
    let rs = chain(&kp, "test", 2);
    let os = chain(&other, "else", 1);
    let sid = *rs[0].stream_id();
    let mut store = MemoryStore::new();
    for r in rs.iter().chain(os.iter()) {
        ingest(&mut store, r);
    }
    let results = chainge_kernel::sync::verify_all_streams(
        &store,
        &vec![(sid, 2, rs[1].compute_id()), (sid, 1, rs[0].compute_id())],
    );
    assert_eq!(results.len(), 2);
    assert!(results[0].1.is_converged());
    assert!(!results[1].1.is_converged());
    assert_eq!(store.list_streams(None).len(), 2);
    assert_eq!(store.list_streams(Some(&kp.public_key())), vec![sid]);
    let heads = store.get_all_stream_heads();
    assert_eq!(heads.len(), 2);
    assert!(heads.contains(&(sid, 2, rs[1].compute_id())));
}

#[test]
fn batch_ingest_counts_each_outcome() {
    let kp = Keypair::from_seed(&[0x42; 32]);
    let rs = chain(&kp, "test", 3);
    let mut store = MemoryStore::new();
    ingest(&mut store, &rs[0]);
    let mut bad = rs[2].clone();
    bad.payload = b"tampered".to_vec();
    let mut report = chainge_kernel::sync::SyncReport::new();
    let ids = chainge_kernel::sync::ingest_batch(&mut store, &vec![rs[0].clone(), rs[1].clone(), bad], true, 0, &mut report);
    assert_eq!(ids, vec![rs[1].compute_id()]);
    assert_eq!(report.received_count, 1);
    assert_eq!(report.duplicate_count, 1);
    assert_eq!(report.invalid_count, 1);
    assert_eq!(report.streams_synced.len(), 1);
}

#[test]
fn heads_follow_the_peer_interest_list() {
    let a = StreamId::from_bytes([1; 32]);
    let b = StreamId::from_bytes([2; 32]);
    let id = ReceiptId::from_bytes([9; 32]);
    let triples = vec![(a, 1, id), (b, 2, id)];
    let all = chainge_kernel::sync::heads_for_interest(&triples, &vec![]);
    assert_eq!(all.len(), 2);
    let only_b = chainge_kernel::sync::heads_for_interest(&triples, &vec![b]);
    assert_eq!(only_b, vec![StreamHead { stream_id: b, head_seq: 2, head_receipt_id: id }]);
    let peer = NodeId::from_bytes([2; 32]);
    let (p, a2) = on_event(SyncPhase::AwaitHello, &SyncEvent::Ack, &peer);
    assert_eq!(p, SyncPhase::AwaitHello);
    assert!(matches!(a2, SyncAction::Wait));
}

#[test]
fn sync_counts_and_converges_both_ways() {
    let kp = Keypair::from_seed(&[0x42; 32]);
    let other = Keypair::from_seed(&[0x43; 32]);
    let rs = chain(&kp, "test", 3);
    let os = chain(&other, "mine", 2);
    let mut a = MemoryStore::new();
    let mut b = MemoryStore::new();
    for r in &rs {
        ingest(&mut a, r);
    }
    ingest(&mut b, &rs[0]);
    for r in &os {
        ingest(&mut b, r);
    }
    let report = sync_stores(&mut b, &mut a, true, 0);
    assert_eq!(report.received_count, 2);
    assert_eq!(report.sent_count, 2);
    assert_eq!(report.duplicate_count, 0);
    let osid = *os[0].stream_id();
    assert_eq!(a.get_stream_state(&osid).unwrap().head_seq, 2);
    assert_eq!(compute_stream_state_hash(&a, &osid), compute_stream_state_hash(&b, &osid));
}
