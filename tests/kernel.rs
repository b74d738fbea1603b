use chainge_kernel::crypto::Keypair;
use chainge_kernel::kernel::{IngestResult, Kernel, KernelConfig, KernelError};
use chainge_kernel::receipt::{ReceiptBuilder, ReceiptKind};
use chainge_kernel::stream::StreamId;
use chainge_kernel::types::ReceiptId;

#[test]
fn kernel_create_append_tombstone() {
    let mut k = Kernel::new(Keypair::from_seed(&[0x42; 32]), KernelConfig::default());
    let (sid, first) = k.create_stream("notes", b"init".to_vec(), 10).unwrap();
    assert_eq!(sid, StreamId::derive(&k.public_key(), "notes"));
    let second = k.append(&sid, ReceiptKind::Data, b"hello".to_vec(), 11).unwrap();
    let third = k.tombstone(&sid, second, 12).unwrap();
    let st = k.stream_state(&sid).unwrap();
    assert_eq!(st.head_seq, 3);
    assert_eq!(st.head_receipt_id, Some(third));
    let stored = k.store().get_receipt(&third).unwrap();
    assert_eq!(stored.tombstoned_receipt(), Some(&second));
    assert_eq!(stored.header.prev_receipt_id, Some(second));
    assert!(k.store().has_receipt(&first));
    assert!(matches!(k.create_stream("notes", vec![], 13), Err(KernelError::StreamExists(_))));
    let unknown = StreamId::from_bytes([9; 32]);
    assert_eq!(k.append(&unknown, ReceiptKind::Data, vec![], 14), Err(KernelError::StreamNotFound(unknown)));
}

#[test]
fn kernel_ingest_reports_duplicates_conflicts_and_invalid() {
    let author = Keypair::from_seed(&[0x11; 32]);
    let sid = StreamId::derive(&author.public_key(), "remote");
    let a = ReceiptBuilder::new(author.public_key(), sid, 1)
        .kind(ReceiptKind::StreamInit)
        .payload(b"a".to_vec())
        .sign(&author);
    let b = ReceiptBuilder::new(author.public_key(), sid, 1)
        .kind(ReceiptKind::StreamInit)
        .payload(b"b".to_vec())
        .sign(&author);
    let mut k = Kernel::new(Keypair::from_seed(&[0x42; 32]), KernelConfig::default());
    assert_eq!(k.ingest(&a, 0), Ok(IngestResult::Accepted(a.compute_id())));
    assert_eq!(k.ingest(&a, 0), Ok(IngestResult::Duplicate));
    assert_eq!(k.ingest(&b, 0), Ok(IngestResult::Conflict { existing: a.compute_id() }));
    assert!(k.stream_state(&sid).unwrap().is_forked());
    let mut bad = a.clone();
    bad.payload = b"tampered".to_vec();
    assert!(matches!(k.ingest(&bad, 0), Err(KernelError::Validation(_))));
    assert!(!k.store().has_receipt(&ReceiptId::from_bytes([0; 32])));
}
