//! The anti-entropy sync protocol: messages and their caps, and the
//! decisions of a session (what to ask for, what to serve, how to count what
//! arrives). Moving messages over a transport is left to the caller.
use vstd::prelude::*;
use crate::crypto::blake3_of;
use crate::receipt::{spec_receipt_id, Receipt};
use crate::store::{
    at_position, copy_receipt, holds_id, stored_id_at, holds_position, insert_relation, InsertResult, MemoryStore, StoreEntry,
};
use crate::stream::{StreamId, StreamState};
use crate::types::ReceiptId;
use crate::validation::{signature_valid, structurally_valid, validate_receipt, ValidationError};

verus! {

/// A 32-byte node identifier.
#[derive(Debug, Clone, Copy)]
pub struct NodeId(pub [u8; 32]);

impl PartialEq for NodeId {
    fn eq(&self, o: &NodeId) -> (r: bool) {
        crate::bytes::eq32(&self.0, &o.0)
    }
}

impl vstd::std_specs::cmp::PartialEqSpecImpl for NodeId {
    open spec fn obeys_eq_spec() -> bool {
        true
    }

    open spec fn eq_spec(&self, o: &NodeId) -> bool {
        self.0@ == o.0@
    }
}

impl Eq for NodeId {}

impl NodeId {
    pub fn from_bytes(bytes: [u8; 32]) -> (r: NodeId)
        ensures
            r.0 == bytes,
    {
        NodeId(bytes)
    }
}

/// The protocol version spoken here.
pub const PROTOCOL_VERSION: u8 = 0;

/// Most streams a Hello may name.
pub const MAX_STREAMS_OF_INTEREST: usize = 100;

/// Most heads a StreamHeads message may carry.
pub const MAX_STREAM_HEADS: usize = 1000;

/// Most requests a NeedReceipts message may carry.
pub const MAX_RECEIPT_REQUESTS: usize = 100;

/// Most sequence numbers a listed request may carry.
pub const MAX_SEQ_LIST: usize = 100;

/// Most receipts a Receipts message may carry.
pub const MAX_RECEIPTS_PER_MESSAGE: usize = 50;

/// Most ids an Ack may carry.
pub const MAX_ACK_IDS: usize = 100;

/// A stream head as advertised to a peer.
#[derive(Debug, Clone, Copy, PartialEq, Eq)]
pub struct StreamHead {
    pub stream_id: StreamId,
    pub head_seq: u64,
    pub head_receipt_id: ReceiptId,
}

/// Which sequence numbers a request asks for.
#[derive(Debug, Clone, PartialEq, Eq)]
pub enum SeqRange {
    Single(u64),
    /// Inclusive at both ends.
    Range { start: u64, end: u64 },
    List(Vec<u64>),
}

/// The sequence numbers a range stands for, in order.
pub open spec fn seq_range_values(r: SeqRange) -> Seq<u64> {
    match r {
        SeqRange::Single(s) => seq![s],
        SeqRange::Range { start, end } => if start <= end {
            Seq::new((end - start + 1) as nat, |i: int| (start + i) as u64)
        } else {
            Seq::empty()
        },
        SeqRange::List(v) => v@,
    }
}

impl SeqRange {
    /// The sequence numbers, in order.
    pub fn to_vec(&self) -> (r: Vec<u64>)
        requires
            match *self {
                SeqRange::Range { start, end } => end - start < usize::MAX,
                _ => true,
            },
        ensures
            r@ == seq_range_values(*self),
    {
        match self {
            SeqRange::Single(s) => {
                let mut v: Vec<u64> = Vec::new();
                v.push(*s);
                assert(v@ =~= seq![*s]);
                v
            },
            SeqRange::Range { start, end } => {
                let mut v: Vec<u64> = Vec::new();
                if *start > *end {
                    assert(v@ =~= seq_range_values(*self));
                    return v;
                }
                let mut x: u64 = *start;
                loop
                    invariant
                        *self == (SeqRange::Range { start: *start, end: *end }),
                        *start <= x <= *end,
                        v@ == Seq::new((x - *start) as nat, |i: int| (*start + i) as u64),
                    decreases *end - x,
                {
                    v.push(x);
                    assert(v@ =~= Seq::new((x - *start + 1) as nat, |i: int| (*start + i) as u64));
                    if x == *end {
                        assert(seq_range_values(*self) =~= Seq::new(
                            (*end - *start + 1) as nat,
                            |i: int| (*start + i) as u64,
                        ));
                        assert(v@ =~= seq_range_values(*self));
                        return v;
                    }
                    x = x + 1;
                    assert(v@ =~= Seq::new((x - *start) as nat, |i: int| (*start + i) as u64));
                }
            },
            SeqRange::List(seqs) => {
                let mut v: Vec<u64> = Vec::new();
                let mut i: usize = 0;
                while i < seqs.len()
                    invariant
                        0 <= i <= seqs@.len(),
                        v@ == seqs@.subrange(0, i as int),
                    decreases seqs@.len() - i,
                {
                    v.push(seqs[i]);
                    i = i + 1;
                    assert(v@ =~= seqs@.subrange(0, i as int));
                }
                assert(v@ =~= seqs@);
                v
            },
        }
    }

    /// How many sequence numbers the range stands for.
    pub fn count(&self) -> (r: usize)
        requires
            match *self {
                SeqRange::Range { start, end } => end - start < usize::MAX,
                _ => true,
            },
        ensures
            r == seq_range_values(*self).len(),
    {
        match self {
            SeqRange::Single(_) => 1,
            SeqRange::Range { start, end } => {
                if *end >= *start {
                    (*end - *start + 1) as usize
                } else {
                    0
                }
            },
            SeqRange::List(seqs) => seqs.len(),
        }
    }
}

/// A request for receipts of one stream.
#[derive(Debug, Clone, PartialEq, Eq)]
pub struct ReceiptRequest {
    pub stream_id: StreamId,
    pub seqs: SeqRange,
}

/// Error codes a peer may send.
#[derive(Debug, Clone, Copy, PartialEq, Eq, Structural)]
pub enum SyncErrorCode {
    Unknown,
    VersionMismatch,
    MessageTooLarge,
    InvalidMessage,
    RateLimited,
    StreamNotFound,
    InternalError,
}

/// A protocol message.
#[derive(Debug)]
pub enum SyncMessage {
    Hello { node_id: NodeId, protocol_version: u8, streams_of_interest: Vec<StreamId> },
    StreamHeads { heads: Vec<StreamHead> },
    NeedReceipts { requests: Vec<ReceiptRequest> },
    Receipts { receipts: Vec<Receipt> },
    Ack { received: Vec<ReceiptId> },
    Error { code: SyncErrorCode, message: String },
}

/// Whether a request's explicit list keeps within its cap.
pub open spec fn request_within_limits(r: ReceiptRequest) -> bool {
    match r.seqs {
        SeqRange::List(v) => v@.len() <= MAX_SEQ_LIST,
        _ => true,
    }
}

/// Whether a message keeps within the caps.
pub open spec fn within_limits(m: SyncMessage) -> bool {
    match m {
        SyncMessage::Hello { streams_of_interest, .. } => streams_of_interest@.len() <= MAX_STREAMS_OF_INTEREST,
        SyncMessage::StreamHeads { heads } => heads@.len() <= MAX_STREAM_HEADS,
        SyncMessage::NeedReceipts { requests } => requests@.len() <= MAX_RECEIPT_REQUESTS && forall|i: int|
            0 <= i < requests@.len() ==> request_within_limits(#[trigger] requests@[i]),
        SyncMessage::Receipts { receipts } => receipts@.len() <= MAX_RECEIPTS_PER_MESSAGE,
        SyncMessage::Ack { received } => received@.len() <= MAX_ACK_IDS,
        SyncMessage::Error { .. } => true,
    }
}

impl SyncMessage {
    /// Checks the caps that guard against adversarial peers.
    pub fn validate_limits(&self) -> (r: Result<(), &'static str>)
        ensures
            r is Ok <==> within_limits(*self),
    {
        match self {
            SyncMessage::Hello { streams_of_interest, .. } => {
                if streams_of_interest.len() > MAX_STREAMS_OF_INTEREST {
                    return Err("too many streams_of_interest");
                }
            },
            SyncMessage::StreamHeads { heads } => {
                if heads.len() > MAX_STREAM_HEADS {
                    return Err("too many stream heads");
                }
            },
            SyncMessage::NeedReceipts { requests } => {
                if requests.len() > MAX_RECEIPT_REQUESTS {
                    return Err("too many receipt requests");
                }
                let mut i: usize = 0;
                while i < requests.len()
                    invariant
                        *self == (SyncMessage::NeedReceipts { requests: *requests }),
                        0 <= i <= requests@.len(),
                        forall|j: int| 0 <= j < i ==> request_within_limits(#[trigger] requests@[j]),
                    decreases requests@.len() - i,
                {
                    if let SeqRange::List(seqs) = &requests[i].seqs {
                        if seqs.len() > MAX_SEQ_LIST {
                            assert(!request_within_limits(requests@[i as int]));
                            return Err("too many seqs in list");
                        }
                    }
                    i = i + 1;
                }
            },
            SyncMessage::Receipts { receipts } => {
                if receipts.len() > MAX_RECEIPTS_PER_MESSAGE {
                    return Err("too many receipts");
                }
            },
            SyncMessage::Ack { received } => {
                if received.len() > MAX_ACK_IDS {
                    return Err("too many ack IDs");
                }
            },
            SyncMessage::Error { .. } => {},
        }
        Ok(())
    }
}

/// Errors of a sync session.
#[derive(Debug, Clone, PartialEq, Eq)]
pub enum SyncError {
    VersionMismatch { local: u8, peer: u8 },
    InvalidMessage(String),
    TransportError(String),
    StoreError(String),
    PeerError { code: SyncErrorCode, message: String },
    Timeout(String),
    ValidationError(ValidationError),
    PeerNotConnected(String),
    Cancelled,
}

/// Checks a peer's Hello: it must come from the expected peer and speak our
/// protocol version.
pub fn check_hello(from: &NodeId, expected_peer: &NodeId, protocol_version: u8) -> (r: Result<(), SyncError>)
    ensures
        from.0@ != expected_peer.0@ ==> r matches Err(SyncError::InvalidMessage(_)),
        from.0@ == expected_peer.0@ && protocol_version != PROTOCOL_VERSION ==> r == Err::<(), SyncError>(
            SyncError::VersionMismatch { local: PROTOCOL_VERSION, peer: protocol_version },
        ),
        from.0@ == expected_peer.0@ && protocol_version == PROTOCOL_VERSION ==> r is Ok,
{
    if *from != *expected_peer {
        return Err(SyncError::InvalidMessage("Hello from unexpected peer".to_string()));
    }
    if protocol_version != PROTOCOL_VERSION {
        return Err(SyncError::VersionMismatch { local: PROTOCOL_VERSION, peer: protocol_version });
    }
    Ok(())
}

/// Counts of one session.
#[derive(Debug, Clone)]
pub struct SyncReport {
    /// Receipts sent to the peer.
    pub sent_count: usize,
    /// Receipts newly stored.
    pub received_count: usize,
    /// Receipts already held, or refused as conflicting.
    pub duplicate_count: usize,
    /// Receipts that failed validation.
    pub invalid_count: usize,
    /// Streams that gained receipts.
    pub streams_synced: Vec<StreamId>,
    pub success: bool,
    pub error: Option<String>,
}

impl SyncReport {
    /// An empty report.
    pub fn new() -> (r: SyncReport)
        ensures
            r.sent_count == 0,
            r.received_count == 0,
            r.duplicate_count == 0,
            r.invalid_count == 0,
            r.streams_synced@.len() == 0,
            !r.success,
            r.error is None,
    {
        SyncReport {
            sent_count: 0,
            received_count: 0,
            duplicate_count: 0,
            invalid_count: 0,
            streams_synced: Vec::new(),
            success: false,
            error: None,
        }
    }
}

/// Settings of a session.
#[derive(Debug, Clone, Copy)]
pub struct SyncConfig {
    /// How long to wait for each message, in milliseconds.
    pub message_timeout_ms: u64,
    /// Most items per outgoing message.
    pub max_batch_size: usize,
    /// Whether incoming receipts are validated before they are stored.
    pub validate_receipts: bool,
}

impl SyncConfig {
    /// Thirty seconds per message, batches of fifty, validation on.
    pub fn default() -> (r: SyncConfig)
        ensures
            r.message_timeout_ms == 30000,
            r.max_batch_size == 50,
            r.validate_receipts,
    {
        SyncConfig { message_timeout_ms: 30000, max_batch_size: 50, validate_receipts: true }
    }
}

} // verus!

verus! {

/// The local head position of `sid`: 0 when the stream is unknown.
pub open spec fn our_head(store: MemoryStore, sid: Seq<u8>) -> u64 {
    match store.find_stream_spec(sid) {
        Some(st) => st.head_seq,
        None => 0,
    }
}

/// The local gaps of `sid`: none when the stream is unknown.
pub open spec fn our_gaps(store: MemoryStore, sid: Seq<u8>) -> Seq<u64> {
    match store.find_stream_spec(sid) {
        Some(st) => st.gaps@,
        None => Seq::empty(),
    }
}

/// `a..=b` as a sequence.
pub open spec fn span(a: u64, b: u64) -> Seq<u64> {
    seq_range_values(SeqRange::Range { start: a, end: b })
}

/// What to ask a peer for, per advertised head: the positions past our head
/// up to the peer's, then our known gaps; as (stream, positions) pairs.
pub open spec fn needs_spec(store: MemoryStore, heads: Seq<StreamHead>) -> Seq<(Seq<u8>, Seq<u64>)>
    decreases heads.len(),
{
    if heads.len() == 0 {
        Seq::empty()
    } else {
        let h = heads.last();
        let sid = h.stream_id.0@;
        let ours = our_head(store, sid);
        let gaps = our_gaps(store, sid);
        let rest = needs_spec(store, heads.drop_last());
        let with_range = if h.head_seq > ours {
            rest.push((sid, span((ours + 1) as u64, h.head_seq)))
        } else {
            rest
        };
        if gaps.len() > 0 {
            with_range.push((sid, gaps))
        } else {
            with_range
        }
    }
}

/// The (stream, positions) pair a request stands for.
pub open spec fn request_view(q: ReceiptRequest) -> (Seq<u8>, Seq<u64>) {
    (q.stream_id.0@, seq_range_values(q.seqs))
}

/// Computes the requests to send for the peer's advertised heads.
pub fn compute_needs(store: &MemoryStore, peer_heads: &Vec<StreamHead>) -> (r: Vec<ReceiptRequest>)
    requires
        store.wf(),
    ensures
        r@.map_values(|q: ReceiptRequest| request_view(q)) == needs_spec(*store, peer_heads@),
{
    let mut requests: Vec<ReceiptRequest> = Vec::new();
    let mut i: usize = 0;
    while i < peer_heads.len()
        invariant
            store.wf(),
            0 <= i <= peer_heads@.len(),
            requests@.map_values(|q: ReceiptRequest| request_view(q)) == needs_spec(
                *store,
                peer_heads@.subrange(0, i as int),
            ),
        decreases peer_heads@.len() - i,
    {
        let h = peer_heads[i];
        proof {
            assert(peer_heads@.subrange(0, i + 1).drop_last() =~= peer_heads@.subrange(0, i as int));
        }
        let ours: u64 = match store.get_stream_state(&h.stream_id) {
            Some(st) => st.head_seq,
            None => 0,
        };
        let ghost before = requests@;
        if h.head_seq > ours {
            requests.push(
                ReceiptRequest { stream_id: h.stream_id, seqs: SeqRange::Range { start: ours + 1, end: h.head_seq } },
            );
            assert(requests@.map_values(|q: ReceiptRequest| request_view(q)) =~= before.map_values(
                |q: ReceiptRequest| request_view(q),
            ).push((h.stream_id.0@, span((ours + 1) as u64, h.head_seq))));
        }
        let ghost mid = requests@;
        let gaps = store.get_gaps(&h.stream_id);
        if gaps.len() > 0 {
            requests.push(ReceiptRequest { stream_id: h.stream_id, seqs: SeqRange::List(gaps) });
            assert(requests@.map_values(|q: ReceiptRequest| request_view(q)) =~= mid.map_values(
                |q: ReceiptRequest| request_view(q),
            ).push((h.stream_id.0@, our_gaps(*store, h.stream_id.0@))));
        }
        i = i + 1;
    }
    assert(peer_heads@.subrange(0, peer_heads@.len() as int) =~= peer_heads@);
    requests
}

/// Validates (when asked) and ingests one incoming receipt: Ok(true) when it
/// was newly stored, Ok(false) when already held or refused as conflicting,
/// and the validation error otherwise, with the store untouched.
pub fn process_receipt(store: &mut MemoryStore, receipt: &Receipt, validate: bool, now: i64) -> (r: Result<
    bool,
    ValidationError,
>)
    requires
        old(store).consistent(),
    ensures
        final(store).consistent(),
        r is Err <==> validate && !(structurally_valid(receipt@) && signature_valid(receipt@)),
        r is Err ==> *final(store) == *old(store),
        r matches Ok(b) ==> exists|res: InsertResult|
            insert_relation(old(store).entries_view(), final(store).entries_view(), receipt@, res) && b == (res
                == InsertResult::Inserted),
{
    if validate {
        match validate_receipt(receipt) {
            Ok(()) => {},
            Err(e) => return Err(e),
        }
    }
    let canonical = crate::canonical::canonical_bytes(receipt);
    let res = store.insert_and_update_stream(receipt, canonical.as_slice(), now);
    match res {
        InsertResult::Inserted => Ok(true),
        _ => Ok(false),
    }
}

/// Whether some request asks for position `seq` of stream `sid`.
pub open spec fn requested_at(requests: Seq<ReceiptRequest>, sid: Seq<u8>, seq: u64) -> bool {
    exists|i: int|
        0 <= i < requests.len() && (#[trigger] requests[i]).stream_id.0@ == sid && seq_range_values(
            requests[i].seqs,
        ).contains(seq)
}

/// Whether `out` holds a copy of `rc`.
pub open spec fn holds_copy(out: Seq<Receipt>, rc: crate::receipt::ReceiptModel) -> bool {
    exists|k: int| 0 <= k < out.len() && (#[trigger] out[k])@ == rc
}

/// Whether every stored receipt at a position that `requests` asks for has a copy in `out`.
pub open spec fn serves_all(entries: Seq<StoreEntry>, requests: Seq<ReceiptRequest>, out: Seq<Receipt>) -> bool {
    forall|j: int|
        0 <= j < entries.len() && requested_at(
            requests,
            (#[trigger] entries[j]).receipt.header.stream_id.0@,
            entries[j].receipt.header.seq,
        ) ==> holds_copy(out, entries[j].receipt@)
}

/// The stored receipts at the requested positions, request by request and
/// position by position; positions with no receipt are skipped. Every
/// returned receipt is stored, and every stored receipt at a requested
/// position is returned.
pub fn collect_requested(store: &MemoryStore, requests: &Vec<ReceiptRequest>) -> (r: Vec<Receipt>)
    requires
        store.wf(),
    ensures
        all_served(store.entries_view(), requests@, r@),
        serves_all(store.entries_view(), requests@, r@),
{
    let ghost es = store.entries_view();
    let mut out: Vec<Receipt> = Vec::new();
    let mut i: usize = 0;
    while i < requests.len()
        invariant
            es == store.entries_view(),
            store.wf(),
            0 <= i <= requests@.len(),
            all_served(es, requests@, out@),
            serves_all(es, requests@.subrange(0, i as int), out@),
        decreases requests@.len() - i,
    {
        let q = &requests[i];
        let ghost sid = q.stream_id.0@;
        let ghost before = out@;
        match &q.seqs {
            SeqRange::Single(s) => {
                proof {
                    assert(seq_range_values(requests@[i as int].seqs)[0] == *s);
                }
                push_stored(store, &q.stream_id, *s, &mut out, Ghost(requests@));
            },
            SeqRange::Range { start, end } => {
                if *start <= *end {
                    let mut x: u64 = *start;
                    loop
                        invariant
                            es == store.entries_view(),
                            store.wf(),
                            sid == q.stream_id.0@,
                            i < requests@.len(),
                            *q == requests@[i as int],
                            requests@[i as int].seqs == (SeqRange::Range { start: *start, end: *end }),
                            *start <= x <= *end,
                            all_served(es, requests@, out@),
                            forall|rc: crate::receipt::ReceiptModel| holds_copy(before, rc) ==> #[trigger] holds_copy(out@, rc),
                            forall|j: int|
                                0 <= j < es.len() && at_position(#[trigger] es[j], sid, es[j].receipt.header.seq)
                                    && *start <= es[j].receipt.header.seq < x ==> holds_copy(out@, es[j].receipt@),
                        ensures
                            all_served(es, requests@, out@),
                            forall|rc: crate::receipt::ReceiptModel| holds_copy(before, rc) ==> #[trigger] holds_copy(out@, rc),
                            forall|j: int|
                                0 <= j < es.len() && at_position(#[trigger] es[j], sid, es[j].receipt.header.seq)
                                    && *start <= es[j].receipt.header.seq <= *end ==> holds_copy(out@, es[j].receipt@),
                        decreases *end - x,
                    {
                        proof {
                            assert(seq_range_values(requests@[i as int].seqs)[x - *start] == x);
                        }
                        push_stored(store, &q.stream_id, x, &mut out, Ghost(requests@));
                        if x == *end {
                            break;
                        }
                        x = x + 1;
                    }
                }
            },
            SeqRange::List(seqs) => {
                let mut k: usize = 0;
                while k < seqs.len()
                    invariant
                        es == store.entries_view(),
                        store.wf(),
                        sid == q.stream_id.0@,
                        i < requests@.len(),
                        *q == requests@[i as int],
                        requests@[i as int].seqs == SeqRange::List(*seqs),
                        0 <= k <= seqs@.len(),
                        all_served(es, requests@, out@),
                        forall|rc: crate::receipt::ReceiptModel| holds_copy(before, rc) ==> #[trigger] holds_copy(out@, rc),
                        forall|j: int|
                            0 <= j < es.len() && at_position(#[trigger] es[j], sid, es[j].receipt.header.seq)
                                && seqs@.subrange(0, k as int).contains(es[j].receipt.header.seq) ==> holds_copy(
                                out@,
                                es[j].receipt@,
                            ),
                    decreases seqs@.len() - k,
                {
                    proof {
                        assert(seq_range_values(requests@[i as int].seqs)[k as int] == seqs@[k as int]);
                    }
                    push_stored(store, &q.stream_id, seqs[k], &mut out, Ghost(requests@));
                    proof {
                        assert forall|j: int|
                            0 <= j < es.len() && at_position(#[trigger] es[j], sid, es[j].receipt.header.seq)
                                && seqs@.subrange(0, k + 1).contains(es[j].receipt.header.seq) implies holds_copy(
                            out@,
                            es[j].receipt@,
                        ) by {
                            let m = choose|m: int| 0 <= m < k + 1 && #[trigger] seqs@.subrange(0, k + 1)[m] == es[j].receipt.header.seq;
                            if m < k {
                                assert(seqs@.subrange(0, k as int)[m] == es[j].receipt.header.seq);
                            }
                        }
                    }
                    k = k + 1;
                }
                assert(seqs@.subrange(0, seqs@.len() as int) =~= seqs@);
            },
        }
        proof {
            assert forall|j: int|
                0 <= j < es.len() && requested_at(
                    requests@.subrange(0, i + 1),
                    (#[trigger] es[j]).receipt.header.stream_id.0@,
                    es[j].receipt.header.seq,
                ) implies holds_copy(out@, es[j].receipt@) by {
                let sj = es[j].receipt.header.stream_id.0@;
                let qj = es[j].receipt.header.seq;
                let w = choose|w: int|
                    0 <= w < i + 1 && (#[trigger] requests@.subrange(0, i + 1)[w]).stream_id.0@ == sj
                        && seq_range_values(requests@.subrange(0, i + 1)[w].seqs).contains(qj);
                if w < i {
                    assert(requests@.subrange(0, i as int)[w] == requests@.subrange(0, i + 1)[w]);
                    assert(requested_at(requests@.subrange(0, i as int), sj, qj));
                    assert(holds_copy(before, es[j].receipt@));
                } else {
                    assert(requests@.subrange(0, i + 1)[w] == requests@[i as int]);
                    assert(at_position(es[j], sid, qj));
                    match requests@[i as int].seqs {
                        SeqRange::Range { start, end } => {
                            let m = choose|m: int| 0 <= m < seq_range_values(requests@[i as int].seqs).len()
                                && #[trigger] seq_range_values(requests@[i as int].seqs)[m] == qj;
                        },
                        _ => {},
                    }
                }
            }
        }
        i = i + 1;
    }
    assert(requests@.subrange(0, requests@.len() as int) =~= requests@);
    out
}

/// Whether a receipt equal to `rc` is stored at a position that `requests` asks for.
pub open spec fn is_served(entries: Seq<StoreEntry>, requests: Seq<ReceiptRequest>, rc: Receipt) -> bool {
    exists|j: int|
        0 <= j < entries.len() && (#[trigger] entries[j]).receipt@ == rc@ && requested_at(
            requests,
            entries[j].receipt.header.stream_id.0@,
            entries[j].receipt.header.seq,
        )
}

/// Whether every receipt of `v` is stored at a requested position.
pub open spec fn all_served(entries: Seq<StoreEntry>, requests: Seq<ReceiptRequest>, v: Seq<Receipt>) -> bool {
    forall|k: int| 0 <= k < v.len() ==> #[trigger] is_served(entries, requests, v[k])
}

/// Appends a copy of the receipt stored at `seq` of `stream_id`, if any.
fn push_stored(
    store: &MemoryStore,
    stream_id: &StreamId,
    seq: u64,
    out: &mut Vec<Receipt>,
    Ghost(requests): Ghost<Seq<ReceiptRequest>>,
)
    requires
        all_served(store.entries_view(), requests, old(out)@),
        requested_at(requests, stream_id.0@, seq),
        store.wf(),
    ensures
        all_served(store.entries_view(), requests, final(out)@),
        forall|rc: crate::receipt::ReceiptModel| holds_copy(old(out)@, rc) ==> #[trigger] holds_copy(final(out)@, rc),
        forall|j: int|
            0 <= j < store.entries_view().len() && at_position(#[trigger] store.entries_view()[j], stream_id.0@, seq)
                ==> holds_copy(final(out)@, store.entries_view()[j].receipt@),
{
    match store.get_receipt_by_position(stream_id, seq) {
        Some(rc) => {
            let c = copy_receipt(rc);
            let ghost before = out@;
            out.push(c);
            proof {
                let es = store.entries_view();
                let j0 = choose|j: int| 0 <= j < es.len() && at_position(#[trigger] es[j], stream_id.0@, seq) && *rc == es[j].receipt;
                assert forall|k: int| 0 <= k < out@.len() implies #[trigger] is_served(es, requests, out@[k]) by {
                    if k < before.len() {
                        assert(out@[k] == before[k]);
                    } else {
                        assert(es[j0].receipt@ == out@[k]@);
                    }
                }
                assert forall|x: crate::receipt::ReceiptModel| holds_copy(before, x) implies #[trigger] holds_copy(out@, x) by {
                    let k = choose|k: int| 0 <= k < before.len() && (#[trigger] before[k])@ == x;
                    assert(out@[k] == before[k]);
                }
                assert forall|j: int| 0 <= j < es.len() && at_position(#[trigger] es[j], stream_id.0@, seq) implies holds_copy(out@, es[j].receipt@) by {
                    if j != j0 {
                        if j < j0 {
                            assert(!at_position(es[j], es[j0].receipt.header.stream_id.0@, es[j0].receipt.header.seq));
                        } else {
                            assert(!at_position(es[j0], es[j].receipt.header.stream_id.0@, es[j].receipt.header.seq));
                        }
                    }
                    assert(out@[before.len() as int]@ == es[j0].receipt@);
                }
            }
        },
        None => {},
    }
}

} // verus!

verus! {

/// The domain prefix of state hashes: the ASCII bytes of `chainge-state-v0:`.
pub open spec fn state_domain() -> Seq<u8> {
    seq![99u8, 104, 97, 105, 110, 103, 101, 45, 115, 116, 97, 116, 101, 45, 118, 48, 58]
}

/// The rolling state hash: `H_0 = Hash(domain ‖ stream_id)`, then
/// `H_i = Hash(H_{i-1} ‖ id_i)` over the receipt ids in position order.
pub open spec fn state_hash_of(sid: Seq<u8>, ids: Seq<Seq<u8>>) -> Seq<u8>
    decreases ids.len(),
{
    if ids.len() == 0 {
        blake3_of(state_domain() + sid)
    } else {
        blake3_of(state_hash_of(sid, ids.drop_last()) + ids.last())
    }
}

/// The ids stored at positions `1..=n` of `sid`.
pub open spec fn stored_ids(entries: Seq<StoreEntry>, sid: Seq<u8>, n: nat) -> Seq<Seq<u8>> {
    Seq::new(n, |i: int| stored_id_at(entries, sid, (i + 1) as u64))
}

/// The state hash of a stream over its receipts `1..=head`; none when the
/// stream is unknown, its head is 0, or a position up to the head is empty.
pub fn compute_stream_state_hash(store: &MemoryStore, stream_id: &StreamId) -> (r: Option<crate::crypto::Blake3Hash>)
    requires
        store.wf(),
    ensures
        r matches Some(h) ==> store.find_stream_spec(stream_id.0@) matches Some(st) && h.0@ == state_hash_of(
            stream_id.0@,
            stored_ids(store.entries_view(), stream_id.0@, st.head_seq as nat),
        ),
        store.consistent() && (store.find_stream_spec(stream_id.0@) matches Some(st) && st.head_seq > 0) ==> r is Some,
        r is Some ==> (store.find_stream_spec(stream_id.0@) matches Some(st) && st.head_seq > 0),
{
    let head = match store.get_stream_state(stream_id) {
        Some(st) => st.head_seq,
        None => return None,
    };
    if head == 0 {
        return None;
    }
    let ghost sid = stream_id.0@;
    let domain: [u8; 17] = [99, 104, 97, 105, 110, 103, 101, 45, 115, 116, 97, 116, 101, 45, 118, 48, 58];
    let mut msg: Vec<u8> = Vec::new();
    crate::bytes::append_bytes(&mut msg, domain.as_slice());
    crate::bytes::append_bytes(&mut msg, stream_id.0.as_slice());
    assert(domain@ =~= state_domain());
    let mut h = crate::crypto::Blake3Hash::hash(msg.as_slice());
    let mut s: u64 = 1;
    proof {
        assert(stored_ids(store.entries_view(), sid, 0) =~= Seq::<Seq<u8>>::empty());
        if store.consistent() {
            let k = choose|k: int| 0 <= k < store.streams_view().len() && (#[trigger] store.streams_view()[k]).stream_id.0@ == sid;
            assert(crate::store::state_consistent(store.streams_view()[k], store.entries_view()));
        }
    }
    loop
        invariant
            sid == stream_id.0@,
            store.wf(),
            1 <= s <= head,
            store.find_stream_spec(sid) matches Some(st) && st.head_seq == head,
            h.0@ == state_hash_of(sid, stored_ids(store.entries_view(), sid, (s - 1) as nat)),
            store.consistent() ==> forall|i: u64| 1 <= i <= head ==> #[trigger] holds_position(store.entries_view(), sid, i),
        decreases head - s,
    {
        let id = match store.get_receipt_id_at(stream_id, s) {
            Some(id) => id,
            None => {
                proof {
                    if store.consistent() {
                        assert(holds_position(store.entries_view(), sid, s));
                    }
                }
                return None;
            },
        };
        let ghost ids_s = stored_ids(store.entries_view(), sid, s as nat);
        proof {
            assert(ids_s.drop_last() =~= stored_ids(store.entries_view(), sid, (s - 1) as nat));
            assert(ids_s[s - 1] == stored_id_at(store.entries_view(), sid, s));
            assert(ids_s.last() == id.0@);
        }
        let mut next: Vec<u8> = Vec::new();
        crate::bytes::append_bytes(&mut next, h.0.as_slice());
        crate::bytes::append_bytes(&mut next, id.0.as_slice());
        h = crate::crypto::Blake3Hash::hash(next.as_slice());
        assert(h.0@ == state_hash_of(sid, ids_s));
        if s == head {
            return Some(h);
        }
        s = s + 1;
    }
}

/// Whether two nodes agree on a stream.
#[derive(Debug, Clone, PartialEq, Eq)]
pub enum ConvergenceResult {
    Converged,
    NotConverged { reason: String },
    Forked { at_seq: u64, local_receipt_id: ReceiptId, remote_receipt_id: ReceiptId },
}

impl ConvergenceResult {
    pub fn is_converged(&self) -> (r: bool)
        ensures
            r == self is Converged,
    {
        match self {
            ConvergenceResult::Converged => true,
            _ => false,
        }
    }

    pub fn is_forked(&self) -> (r: bool)
        ensures
            r == self is Forked,
    {
        match self {
            ConvergenceResult::Forked { .. } => true,
            _ => false,
        }
    }
}

/// Compares the local view of a stream with a peer's head and, when given,
/// its state hash. Converged when the heads match and the state hashes (if
/// given) agree; Forked when the same head position holds different ids.
pub fn verify_convergence(
    store: &MemoryStore,
    stream_id: &StreamId,
    remote_head_seq: u64,
    remote_head_receipt_id: &ReceiptId,
    remote_state_hash: Option<&crate::crypto::Blake3Hash>,
) -> (r: ConvergenceResult)
    requires
        store.wf(),
    ensures
        store.find_stream_spec(stream_id.0@) is None ==> r is NotConverged,
        store.find_stream_spec(stream_id.0@) matches Some(st) ==> {
            if st.head_seq != remote_head_seq {
                r is NotConverged
            } else if st.head_receipt_id is None {
                r is NotConverged
            } else if st.head_receipt_id->Some_0.0@ != remote_head_receipt_id.0@ {
                r == (ConvergenceResult::Forked {
                    at_seq: st.head_seq,
                    local_receipt_id: st.head_receipt_id->Some_0,
                    remote_receipt_id: *remote_head_receipt_id,
                })
            } else {
                match remote_state_hash {
                    None => r is Converged,
                    Some(rh) => {
                        &&& r is Converged ==> (st.head_seq > 0 && rh.0@ == state_hash_of(
                            stream_id.0@,
                            stored_ids(store.entries_view(), stream_id.0@, st.head_seq as nat),
                        ))
                        &&& (store.consistent() && st.head_seq > 0 && rh.0@ == state_hash_of(
                            stream_id.0@,
                            stored_ids(store.entries_view(), stream_id.0@, st.head_seq as nat),
                        )) ==> r is Converged
                    },
                }
            }
        },
{
    let (head_seq, head_id) = match store.get_stream_state(stream_id) {
        Some(st) => (st.head_seq, st.head_receipt_id),
        None => return ConvergenceResult::NotConverged { reason: "stream not found locally".to_string() },
    };
    if head_seq != remote_head_seq {
        return ConvergenceResult::NotConverged { reason: "head_seq mismatch".to_string() };
    }
    match head_id {
        Some(local_id) => {
            if local_id != *remote_head_receipt_id {
                return ConvergenceResult::Forked {
                    at_seq: head_seq,
                    local_receipt_id: local_id,
                    remote_receipt_id: *remote_head_receipt_id,
                };
            }
        },
        None => return ConvergenceResult::NotConverged { reason: "local head_receipt_id is None".to_string() },
    }
    match remote_state_hash {
        Some(remote_hash) => match compute_stream_state_hash(store, stream_id) {
            Some(local_hash) => {
                if local_hash != *remote_hash {
                    return ConvergenceResult::NotConverged { reason: "state hash mismatch".to_string() };
                }
            },
            None => {
                return ConvergenceResult::NotConverged {
                    reason: "could not compute local state hash".to_string(),
                }
            },
        },
        None => {},
    }
    ConvergenceResult::Converged
}

/// Two stores that hold the same ids at positions `1..=n` of a stream have
/// the same state hash for it: the hash is a function of the stream id and
/// its ids in order.
pub proof fn lemma_state_hash_agrees(e1: Seq<StoreEntry>, e2: Seq<StoreEntry>, sid: Seq<u8>, n: nat)
    requires
        n <= u64::MAX,
        forall|i: u64| 1 <= i <= n ==> #[trigger] stored_id_at(e1, sid, i) == stored_id_at(e2, sid, i),
    ensures
        state_hash_of(sid, stored_ids(e1, sid, n)) == state_hash_of(sid, stored_ids(e2, sid, n)),
{
    assert forall|i: int| 0 <= i < n implies stored_ids(e1, sid, n)[i] == stored_ids(e2, sid, n)[i] by {
        assert(stored_id_at(e1, sid, (i + 1) as u64) == stored_id_at(e2, sid, (i + 1) as u64));
    }
    assert(stored_ids(e1, sid, n) =~= stored_ids(e2, sid, n));
}

} // verus!

verus! {

/// Whether `after` keeps every entry of `before`, in place.
pub open spec fn extends(before: Seq<StoreEntry>, after: Seq<StoreEntry>) -> bool {
    before.len() <= after.len() && after.subrange(0, before.len() as int) == before
}

/// Whether `entries` holds receipt `rm` by id, or some receipt at its position.
pub open spec fn held(entries: Seq<StoreEntry>, rm: crate::receipt::ReceiptModel) -> bool {
    holds_id(entries, spec_receipt_id(rm)) || holds_position(entries, rm.header.stream_id, rm.header.seq)
}

/// Whether ingest would let `rm` through: always when not validating,
/// otherwise when it passes validation.
pub open spec fn admissible(validate: bool, rm: crate::receipt::ReceiptModel) -> bool {
    validate ==> structurally_valid(rm) && signature_valid(rm)
}

/// Whatever is held stays held as entries are added.
pub proof fn lemma_held_extends(before: Seq<StoreEntry>, after: Seq<StoreEntry>, rm: crate::receipt::ReceiptModel)
    requires
        extends(before, after),
        held(before, rm),
    ensures
        held(after, rm),
{
    if holds_id(before, spec_receipt_id(rm)) {
        let k = choose|k: int| 0 <= k < before.len() && (#[trigger] before[k]).id.0@ == spec_receipt_id(rm);
        assert(after.subrange(0, before.len() as int)[k] == after[k]);
    } else {
        let k = choose|k: int| 0 <= k < before.len() && at_position(#[trigger] before[k], rm.header.stream_id, rm.header.seq);
        assert(after.subrange(0, before.len() as int)[k] == after[k]);
    }
}

/// Whether the ids of `v` are pairwise distinct.
pub open spec fn distinct_streams(v: Seq<StreamId>) -> bool {
    forall|i: int, j: int| 0 <= i < j < v.len() ==> (#[trigger] v[i]).0@ != (#[trigger] v[j]).0@
}

/// Adds `sid` to `v` unless it is there already.
fn note_stream(v: &mut Vec<StreamId>, sid: StreamId)
    requires
        distinct_streams(old(v)@),
    ensures
        distinct_streams(final(v)@),
        exists|k: int| 0 <= k < final(v)@.len() && (#[trigger] final(v)@[k]).0@ == sid.0@,
        forall|k: int| 0 <= k < old(v)@.len() ==> final(v)@[k] == old(v)@[k],
{
    let mut i: usize = 0;
    while i < v.len()
        invariant
            0 <= i <= v@.len(),
            v@ == old(v)@,
            distinct_streams(old(v)@),
            forall|k: int| 0 <= k < i ==> v@[k].0@ != sid.0@,
        decreases v@.len() - i,
    {
        if v[i] == sid {
            assert(v@[i as int].0@ == sid.0@);
            return;
        }
        i = i + 1;
    }
    v.push(sid);
    assert(v@[v@.len() - 1].0@ == sid.0@);
}

/// Validates (when asked) and ingests each receipt of `receipts`, counting
/// the outcomes: newly stored ones as received, ones already held or
/// refused as conflicting as duplicates, and rejected ones as invalid.
/// Every admissible receipt ends up held, by id or by a receipt at its position.
pub fn ingest_batch(local: &mut MemoryStore, receipts: &Vec<Receipt>, validate: bool, now: i64, report: &mut SyncReport) -> (accepted: Vec<ReceiptId>)
    requires
        old(local).consistent(),
        old(report).received_count + old(report).duplicate_count + old(report).invalid_count + receipts@.len()
            <= usize::MAX,
        distinct_streams(old(report).streams_synced@),
    ensures
        final(local).consistent(),
        extends(old(local).entries_view(), final(local).entries_view()),
        final(report).received_count == old(report).received_count + (final(local).entries_view().len() - old(
            local,
        ).entries_view().len()),
        final(report).received_count + final(report).duplicate_count + final(report).invalid_count == old(
            report,
        ).received_count + old(report).duplicate_count + old(report).invalid_count + receipts@.len(),
        forall|m: int|
            0 <= m < receipts@.len() && admissible(validate, (#[trigger] receipts@[m])@) ==> held(
                final(local).entries_view(),
                receipts@[m]@,
            ),
        distinct_streams(final(report).streams_synced@),
        final(report).sent_count == old(report).sent_count,
        final(report).success == old(report).success,
        accepted@.len() == final(report).received_count - old(report).received_count,
        forall|m: int| 0 <= m < accepted@.len() ==> holds_id(final(local).entries_view(), (#[trigger] accepted@[m]).0@),
{
    let ghost start = local.entries_view();
    let mut accepted: Vec<ReceiptId> = Vec::new();
    let ghost r0 = *report;
    assert(start.subrange(0, start.len() as int) =~= start);
    let mut k: usize = 0;
    while k < receipts.len()
        invariant
            local.consistent(),
            0 <= k <= receipts@.len(),
            extends(start, local.entries_view()),
            report.received_count == r0.received_count + (local.entries_view().len() - start.len()),
            report.received_count + report.duplicate_count + report.invalid_count == r0.received_count
                + r0.duplicate_count + r0.invalid_count + k,
            r0.received_count + r0.duplicate_count + r0.invalid_count + receipts@.len() <= usize::MAX,
            forall|m: int|
                0 <= m < k && admissible(validate, (#[trigger] receipts@[m])@) ==> held(
                    local.entries_view(),
                    receipts@[m]@,
                ),
            distinct_streams(report.streams_synced@),
            report.sent_count == r0.sent_count,
            report.success == r0.success,
            accepted@.len() == report.received_count - r0.received_count,
            forall|m: int| 0 <= m < accepted@.len() ==> holds_id(local.entries_view(), (#[trigger] accepted@[m]).0@),
        decreases receipts@.len() - k,
    {
        let ghost before = local.entries_view();
        let id = receipts[k].compute_id();
        let out = process_receipt(local, &receipts[k], validate, now);
        proof {
            let after = local.entries_view();
            if after == before {
                assert(after.subrange(0, before.len() as int) =~= before);
            }
            if out is Ok {
                let res = choose|res: InsertResult|
                    insert_relation(before, after, receipts@[k as int]@, res) && (out->Ok_0 == (res
                        == InsertResult::Inserted));
                if res == InsertResult::Inserted {
                    assert(after[after.len() - 1].id.0@ == spec_receipt_id(receipts@[k as int]@));
                    assert(holds_id(after, spec_receipt_id(receipts@[k as int]@)));
                }
                assert(extends(before, after));
                assert(held(after, receipts@[k as int]@));
            }
            assert(extends(before, after));
            assert(after.subrange(0, start.len() as int) =~= before.subrange(0, start.len() as int)) by {
                assert forall|q: int| 0 <= q < start.len() implies after[q] == before[q] by {
                    assert(after.subrange(0, before.len() as int)[q] == after[q]);
                }
            }
            assert forall|m: int|
                0 <= m < k && admissible(validate, (#[trigger] receipts@[m])@) implies held(after, receipts@[m]@) by {
                lemma_held_extends(before, after, receipts@[m]@);
            }
            assert forall|m: int| 0 <= m < accepted@.len() implies holds_id(after, (#[trigger] accepted@[m]).0@) by {
                let q = choose|q: int| 0 <= q < before.len() && (#[trigger] before[q]).id.0@ == accepted@[m].0@;
                assert(after.subrange(0, before.len() as int)[q] == after[q]);
            }
        }
        match out {
            Ok(true) => {
                report.received_count = report.received_count + 1;
                note_stream(&mut report.streams_synced, receipts[k].header.stream_id);
                accepted.push(id);
            },
            Ok(false) => {
                report.duplicate_count = report.duplicate_count + 1;
            },
            Err(_) => {
                report.invalid_count = report.invalid_count + 1;
            },
        }
        k = k + 1;
    }
    accepted
}

/// One direction of a session between two in-memory nodes: `local` asks for
/// what `remote`'s advertised heads show it lacks, and ingests the answers.
/// Returns how many receipts `remote` served.
pub fn pull_from(local: &mut MemoryStore, remote: &MemoryStore, validate: bool, now: i64, report: &mut SyncReport) -> (served: usize)
    requires
        old(local).consistent(),
        remote.wf(),
        old(report).received_count == 0,
        old(report).duplicate_count == 0,
        old(report).invalid_count == 0,
        distinct_streams(old(report).streams_synced@),
    ensures
        final(local).consistent(),
        extends(old(local).entries_view(), final(local).entries_view()),
        final(report).received_count == final(local).entries_view().len() - old(local).entries_view().len(),
        final(report).received_count + final(report).duplicate_count + final(report).invalid_count == served,
        forall|j: int|
            0 <= j < remote.entries_view().len() && requested_in(
                needs_spec(*old(local), heads_view(*remote)),
                (#[trigger] remote.entries_view()[j]).receipt.header.stream_id.0@,
                remote.entries_view()[j].receipt.header.seq,
            ) && admissible(validate, remote.entries_view()[j].receipt@) ==> held(
                final(local).entries_view(),
                remote.entries_view()[j].receipt@,
            ),
        distinct_streams(final(report).streams_synced@),
        final(report).sent_count == old(report).sent_count,
        final(report).success == old(report).success,
{
    let triples = remote.get_all_stream_heads();
    let mut heads: Vec<StreamHead> = Vec::new();
    let mut i: usize = 0;
    while i < triples.len()
        invariant
            0 <= i <= triples@.len(),
            heads@ == triples@.subrange(0, i as int).map_values(|t: (StreamId, u64, ReceiptId)| as_head(t)),
        decreases triples@.len() - i,
    {
        let (stream_id, head_seq, head_receipt_id) = triples[i];
        heads.push(StreamHead { stream_id, head_seq, head_receipt_id });
        i = i + 1;
        assert(heads@ =~= triples@.subrange(0, i as int).map_values(|t: (StreamId, u64, ReceiptId)| as_head(t)));
    }
    assert(triples@.subrange(0, triples@.len() as int) =~= triples@);
    let needs = compute_needs(local, &heads);
    let receipts = collect_requested(remote, &needs);
    let served = receipts.len();
    assert(receipts@.len() == served);
    ingest_batch(local, &receipts, validate, now, report);
    proof {
        let pairs = needs_spec(*old(local), heads_view(*remote));
        assert forall|j: int|
            0 <= j < remote.entries_view().len() && requested_in(
                pairs,
                (#[trigger] remote.entries_view()[j]).receipt.header.stream_id.0@,
                remote.entries_view()[j].receipt.header.seq,
            ) && admissible(validate, remote.entries_view()[j].receipt@) implies held(
                local.entries_view(),
                remote.entries_view()[j].receipt@,
            ) by {
            let e = remote.entries_view()[j];
            let sid = e.receipt.header.stream_id.0@;
            let sq = e.receipt.header.seq;
            let w = choose|w: int| 0 <= w < pairs.len() && (#[trigger] pairs[w]).0 == sid && pairs[w].1.contains(sq);
            assert(needs@.map_values(|q: ReceiptRequest| request_view(q))[w] == request_view(needs@[w]));
            assert(requested_at(needs@, sid, sq));
            let k = choose|k: int| 0 <= k < receipts@.len() && (#[trigger] receipts@[k])@ == e.receipt@;
            assert(admissible(validate, receipts@[k]@));
        }
    }
    served
}

/// A complete session between two in-memory nodes: `local` pulls what
/// `remote` advertises, then `remote` pulls what `local` then advertises.
/// The report counts what `local` received and what it sent.
pub fn sync_stores(local: &mut MemoryStore, remote: &mut MemoryStore, validate: bool, now: i64) -> (r: SyncReport)
    requires
        old(local).consistent(),
        old(remote).consistent(),
    ensures
        final(local).consistent(),
        final(remote).consistent(),
        r.success,
        extends(old(local).entries_view(), final(local).entries_view()),
        extends(old(remote).entries_view(), final(remote).entries_view()),
        r.received_count == final(local).entries_view().len() - old(local).entries_view().len(),
        r.sent_count == final(remote).entries_view().len() - old(remote).entries_view().len(),
        forall|j: int|
            0 <= j < old(remote).entries_view().len() && requested_in(
                needs_spec(*old(local), heads_view(*old(remote))),
                (#[trigger] old(remote).entries_view()[j]).receipt.header.stream_id.0@,
                old(remote).entries_view()[j].receipt.header.seq,
            ) && admissible(validate, old(remote).entries_view()[j].receipt@) ==> held(
                final(local).entries_view(),
                old(remote).entries_view()[j].receipt@,
            ),
        forall|j: int|
            0 <= j < final(local).entries_view().len() && requested_in(
                needs_spec(*old(remote), heads_view(*final(local))),
                (#[trigger] final(local).entries_view()[j]).receipt.header.stream_id.0@,
                final(local).entries_view()[j].receipt.header.seq,
            ) && admissible(validate, final(local).entries_view()[j].receipt@) ==> held(
                final(remote).entries_view(),
                final(local).entries_view()[j].receipt@,
            ),
        forall|j: int|
            0 <= j < old(remote).entries_view().len() && up_to_head(
                *old(remote),
                #[trigger] old(remote).entries_view()[j],
            ) && admissible(validate, old(remote).entries_view()[j].receipt@) ==> held(
                final(local).entries_view(),
                old(remote).entries_view()[j].receipt@,
            ),
{
    let mut report = SyncReport::new();
    pull_from(local, remote, validate, now, &mut report);
    proof {
        let l0 = *old(local);
        let r0 = *old(remote);
        assert forall|j: int|
            0 <= j < r0.entries_view().len() && up_to_head(r0, #[trigger] r0.entries_view()[j]) && admissible(
                validate,
                r0.entries_view()[j].receipt@,
            ) implies held(local.entries_view(), r0.entries_view()[j].receipt@) by {
            let e = r0.entries_view()[j];
            let sid = e.receipt.header.stream_id.0@;
            let sq = e.receipt.header.seq;
            let ours = our_head(l0, sid);
            if sq <= ours {
                let k = choose|k: int| 0 <= k < l0.streams_view().len() && (#[trigger] l0.streams_view()[k]).stream_id.0@ == sid;
                assert(crate::store::state_consistent(l0.streams_view()[k], l0.entries_view()));
                assert(holds_position(l0.entries_view(), sid, sq));
                assert(held(l0.entries_view(), e.receipt@));
                lemma_held_extends(l0.entries_view(), local.entries_view(), e.receipt@);
            } else {
                let k = choose|k: int| 0 <= k < r0.streams_view().len() && (#[trigger] r0.streams_view()[k]).stream_id.0@ == sid;
                lemma_heads_of_contains(r0.streams_view(), k);
                let ho = crate::store::heads_of(r0.streams_view());
                let w = choose|w: int| 0 <= w < ho.len() && #[trigger] ho[w] == (
                    r0.streams_view()[k].stream_id,
                    r0.streams_view()[k].head_seq,
                    r0.streams_view()[k].head_receipt_id->Some_0,
                );
                assert(heads_view(r0)[w] == as_head(ho[w]));
                lemma_needs_cover(l0, heads_view(r0), w, sq);
            }
        }
    }
    let mut theirs = SyncReport::new();
    pull_from(remote, local, validate, now, &mut theirs);
    report.sent_count = theirs.received_count;
    report.success = true;
    report
}

proof fn lemma_heads_of_contains(streams: Seq<StreamState>, k: int)
    requires
        0 <= k < streams.len(),
        streams[k].head_receipt_id is Some,
    ensures
        exists|w: int|
            0 <= w < crate::store::heads_of(streams).len() && #[trigger] crate::store::heads_of(streams)[w] == (
                streams[k].stream_id,
                streams[k].head_seq,
                streams[k].head_receipt_id->Some_0,
            ),
    decreases streams.len(),
{
    let rest = crate::store::heads_of(streams.drop_last());
    if k < streams.len() - 1 {
        assert(streams.drop_last()[k] == streams[k]);
        lemma_heads_of_contains(streams.drop_last(), k);
        let w = choose|w: int|
            0 <= w < rest.len() && #[trigger] rest[w] == (
                streams[k].stream_id,
                streams[k].head_seq,
                streams[k].head_receipt_id->Some_0,
            );
        assert(crate::store::heads_of(streams)[w] == rest[w]);
    } else {
        assert(crate::store::heads_of(streams)[rest.len() as int] == (
            streams[k].stream_id,
            streams[k].head_seq,
            streams[k].head_receipt_id->Some_0,
        ));
    }
}

proof fn lemma_needs_cover(store: MemoryStore, heads: Seq<StreamHead>, w: int, sq: u64)
    requires
        0 <= w < heads.len(),
        our_head(store, heads[w].stream_id.0@) < sq <= heads[w].head_seq,
    ensures
        requested_in(needs_spec(store, heads), heads[w].stream_id.0@, sq),
    decreases heads.len(),
{
    let h = heads.last();
    let sid = h.stream_id.0@;
    let ours = our_head(store, sid);
    let rest = needs_spec(store, heads.drop_last());
    let with_range = if h.head_seq > ours {
        rest.push((sid, span((ours + 1) as u64, h.head_seq)))
    } else {
        rest
    };
    let all = needs_spec(store, heads);
    assert(with_range.len() <= all.len());
    assert(forall|q: int| 0 <= q < with_range.len() ==> all[q] == with_range[q]);
    assert(forall|q: int| 0 <= q < rest.len() ==> with_range[q] == rest[q]);
    if w < heads.len() - 1 {
        assert(heads.drop_last()[w] == heads[w]);
        lemma_needs_cover(store, heads.drop_last(), w, sq);
        let q = choose|q: int| 0 <= q < rest.len() && (#[trigger] rest[q]).0 == heads[w].stream_id.0@ && rest[q].1.contains(sq);
        assert(all[q] == rest[q]);
    } else {
        let sp = span((ours + 1) as u64, h.head_seq);
        assert(sp[sq - (ours + 1)] == sq);
        assert(sp.contains(sq));
        assert(all[rest.len() as int] == (sid, sp));
    }
}

/// Whether stored entry `e` sits, in `store`, at a position from 1 up to
/// the head of its stream, whose head id is known.
pub open spec fn up_to_head(store: MemoryStore, e: StoreEntry) -> bool {
    let sid = e.receipt.header.stream_id.0@;
    &&& store.find_stream_spec(sid) is Some
    &&& store.find_stream_spec(sid)->Some_0.head_receipt_id is Some
    &&& 1 <= e.receipt.header.seq <= store.find_stream_spec(sid)->Some_0.head_seq
}

/// A stream head from a `(stream, position, id)` triple.
pub open spec fn as_head(t: (StreamId, u64, ReceiptId)) -> StreamHead {
    StreamHead { stream_id: t.0, head_seq: t.1, head_receipt_id: t.2 }
}

/// The heads a store advertises.
pub open spec fn heads_view(store: MemoryStore) -> Seq<StreamHead> {
    crate::store::heads_of(store.streams_view()).map_values(|t: (StreamId, u64, ReceiptId)| as_head(t))
}

/// Whether some (stream, positions) pair asks for position `seq` of `sid`.
pub open spec fn requested_in(pairs: Seq<(Seq<u8>, Seq<u64>)>, sid: Seq<u8>, seq: u64) -> bool {
    exists|w: int| 0 <= w < pairs.len() && (#[trigger] pairs[w]).0 == sid && pairs[w].1.contains(seq)
}

} // verus!

verus! {

/// Where a session stands.
#[derive(Debug, Clone, Copy, PartialEq, Eq, Structural)]
pub enum SyncPhase {
    /// Our Hello is sent; waiting for the peer's.
    AwaitHello,
    /// Our heads are sent; waiting for the peer's.
    AwaitHeads,
    /// Requests and receipts flow both ways. `peer_finished`: the peer has
    /// sent all its requests; `we_finished`: the peer has answered all ours.
    Exchange { peer_finished: bool, we_finished: bool },
    /// The session is over.
    Done,
}

/// The heads to advertise to a peer: those of `triples` whose stream the
/// peer's interest list names, or all of them when the list is empty.
pub fn heads_for_interest(triples: &Vec<(StreamId, u64, ReceiptId)>, interest: &Vec<StreamId>) -> (r: Vec<StreamHead>)
    ensures
        r@ == triples@.filter(|t: (StreamId, u64, ReceiptId)| interested(interest@, t.0)).map_values(
            |t: (StreamId, u64, ReceiptId)| as_head(t),
        ),
{
    let mut out: Vec<StreamHead> = Vec::new();
    let mut i: usize = 0;
    while i < triples.len()
        invariant
            0 <= i <= triples@.len(),
            out@ == triples@.subrange(0, i as int).filter(|t: (StreamId, u64, ReceiptId)| interested(interest@, t.0)).map_values(
                |t: (StreamId, u64, ReceiptId)| as_head(t),
            ),
        decreases triples@.len() - i,
    {
        let (stream_id, head_seq, head_receipt_id) = triples[i];
        proof {
            reveal(Seq::filter);
            assert(triples@.subrange(0, i + 1).drop_last() =~= triples@.subrange(0, i as int));
        }
        let mut keep = interest.len() == 0;
        let mut k: usize = 0;
        while k < interest.len() && !keep
            invariant
                0 <= k <= interest@.len(),
                keep == (interest@.len() == 0 || exists|m: int| 0 <= m < k && (#[trigger] interest@[m]).0@ == stream_id.0@),
            decreases interest@.len() - k,
        {
            if interest[k] == stream_id {
                keep = true;
            }
            k = k + 1;
        }
        let ghost before = out@;
        if keep {
            out.push(StreamHead { stream_id, head_seq, head_receipt_id });
        }
        assert(out@ =~= triples@.subrange(0, i + 1).filter(|t: (StreamId, u64, ReceiptId)| interested(interest@, t.0)).map_values(
            |t: (StreamId, u64, ReceiptId)| as_head(t),
        ));
        i = i + 1;
    }
    assert(triples@.subrange(0, triples@.len() as int) =~= triples@);
    out
}

/// Whether an interest list takes in stream `sid`: it is empty or names it.
pub open spec fn interested(interest: Seq<StreamId>, sid: StreamId) -> bool {
    interest.len() == 0 || exists|m: int| 0 <= m < interest.len() && (#[trigger] interest[m]).0@ == sid.0@
}

/// What arrived, or that nothing did in time.
#[derive(Debug, Clone)]
pub enum SyncEvent {
    Hello { from: NodeId, protocol_version: u8 },
    StreamHeads,
    NeedReceipts,
    Receipts,
    Ack,
    PeerError { code: SyncErrorCode, message: String },
    Timeout,
}

/// What the session does next.
#[derive(Debug, Clone)]
pub enum SyncAction {
    /// Send our stream heads.
    SendHeads,
    /// Compute our needs from the peer's heads and send the requests,
    /// followed by an empty Ack.
    RequestNeeds,
    /// Answer the peer's requests with receipts.
    Serve,
    /// Validate and store the receipts that arrived.
    Ingest,
    /// The peer has sent all its requests: send an empty Ack to say ours are answered.
    SendEndMarker,
    /// Nothing to do; wait for the next message.
    Wait,
    /// The session completed.
    Finish,
    /// The session failed.
    Fail(SyncError),
}

/// The next phase and action of a session on `event`.
pub fn on_event(phase: SyncPhase, event: &SyncEvent, expected_peer: &NodeId) -> (r: (SyncPhase, SyncAction))
    ensures
        r.1 is Fail || r.1 is Finish <==> r.0 == SyncPhase::Done,
        phase == SyncPhase::Done ==> r.0 == SyncPhase::Done,
        phase == SyncPhase::AwaitHello ==> match *event {
            SyncEvent::Hello { from, protocol_version } => if from.0@ == expected_peer.0@ && protocol_version
                == PROTOCOL_VERSION {
                r.0 == SyncPhase::AwaitHeads && r.1 is SendHeads
            } else if from.0@ == expected_peer.0@ {
                r.1 == SyncAction::Fail(
                    SyncError::VersionMismatch { local: PROTOCOL_VERSION, peer: protocol_version },
                )
            } else {
                r.1 matches SyncAction::Fail(SyncError::InvalidMessage(_))
            },
            SyncEvent::Timeout => r.1 matches SyncAction::Fail(SyncError::Timeout(_)),
            SyncEvent::Ack => r.0 == phase && r.1 is Wait,
            _ => r.1 matches SyncAction::Fail(SyncError::InvalidMessage(_)),
        },
        phase == SyncPhase::AwaitHeads ==> match *event {
            SyncEvent::StreamHeads => r.0 == (SyncPhase::Exchange { peer_finished: false, we_finished: false })
                && r.1 is RequestNeeds,
            SyncEvent::PeerError { code, message } => r.1 == SyncAction::Fail(SyncError::PeerError { code, message }),
            SyncEvent::Timeout => r.1 matches SyncAction::Fail(SyncError::Timeout(_)),
            _ => r.1 matches SyncAction::Fail(SyncError::InvalidMessage(_)),
        },
        phase matches SyncPhase::Exchange { peer_finished, we_finished } ==> match *event {
            SyncEvent::NeedReceipts => r.0 == phase && r.1 is Serve,
            SyncEvent::Receipts => r.0 == phase && r.1 is Ingest,
            SyncEvent::Ack => if !peer_finished {
                r.0 == (SyncPhase::Exchange { peer_finished: true, we_finished }) && r.1 is SendEndMarker
            } else if !we_finished {
                r.0 == SyncPhase::Done && r.1 is Finish
            } else {
                r.0 == phase && r.1 is Wait
            },
            SyncEvent::Timeout => r.0 == SyncPhase::Done && r.1 is Finish,
            SyncEvent::PeerError { code, message } => r.1 == SyncAction::Fail(SyncError::PeerError { code, message }),
            _ => r.0 == phase && r.1 is Wait,
        },
{
    match phase {
        SyncPhase::AwaitHello => match event {
            SyncEvent::Hello { from, protocol_version } => match check_hello(from, expected_peer, *protocol_version) {
                Ok(()) => (SyncPhase::AwaitHeads, SyncAction::SendHeads),
                Err(e) => (SyncPhase::Done, SyncAction::Fail(e)),
            },
            SyncEvent::Timeout => (
                SyncPhase::Done,
                SyncAction::Fail(SyncError::Timeout("waiting for Hello".to_string())),
            ),
            SyncEvent::Ack => (phase, SyncAction::Wait),
            _ => (SyncPhase::Done, SyncAction::Fail(SyncError::InvalidMessage("expected Hello".to_string()))),
        },
        SyncPhase::AwaitHeads => match event {
            SyncEvent::StreamHeads => (
                SyncPhase::Exchange { peer_finished: false, we_finished: false },
                SyncAction::RequestNeeds,
            ),
            SyncEvent::PeerError { code, message } => (
                SyncPhase::Done,
                SyncAction::Fail(SyncError::PeerError { code: *code, message: message.clone() }),
            ),
            SyncEvent::Timeout => (
                SyncPhase::Done,
                SyncAction::Fail(SyncError::Timeout("waiting for StreamHeads".to_string())),
            ),
            _ => (SyncPhase::Done, SyncAction::Fail(SyncError::InvalidMessage("expected StreamHeads".to_string()))),
        },
        SyncPhase::Exchange { peer_finished, we_finished } => match event {
            SyncEvent::NeedReceipts => (phase, SyncAction::Serve),
            SyncEvent::Receipts => (phase, SyncAction::Ingest),
            SyncEvent::Ack => {
                if !peer_finished {
                    (SyncPhase::Exchange { peer_finished: true, we_finished }, SyncAction::SendEndMarker)
                } else if !we_finished {
                    (SyncPhase::Done, SyncAction::Finish)
                } else {
                    (phase, SyncAction::Wait)
                }
            },
            SyncEvent::Timeout => (SyncPhase::Done, SyncAction::Finish),
            SyncEvent::PeerError { code, message } => (
                SyncPhase::Done,
                SyncAction::Fail(SyncError::PeerError { code: *code, message: message.clone() }),
            ),
            _ => (phase, SyncAction::Wait),
        },
        SyncPhase::Done => (SyncPhase::Done, SyncAction::Finish),
    }
}

} // verus!

verus! {

/// Whether the local head of `sid` is at `seq` with id `id`.
pub open spec fn head_matches(store: MemoryStore, sid: Seq<u8>, seq: u64, id: Seq<u8>) -> bool {
    match store.find_stream_spec(sid) {
        Some(st) => st.head_seq == seq && match st.head_receipt_id {
            Some(h) => h.0@ == id,
            None => false,
        },
        None => false,
    }
}

/// Checks each advertised head `(stream, position, id)` against the local
/// store, without state hashes; one result per head, in order.
pub fn verify_all_streams(store: &MemoryStore, remote_heads: &Vec<(StreamId, u64, ReceiptId)>) -> (r: Vec<
    (StreamId, ConvergenceResult),
>)
    requires
        store.wf(),
    ensures
        r@.len() == remote_heads@.len(),
        forall|k: int| 0 <= k < r@.len() ==> (#[trigger] r@[k]).0 == remote_heads@[k].0,
        forall|k: int|
            0 <= k < r@.len() ==> ((#[trigger] r@[k]).1 is Converged <==> head_matches(
                *store,
                remote_heads@[k].0.0@,
                remote_heads@[k].1,
                remote_heads@[k].2.0@,
            )),
{
    let mut results: Vec<(StreamId, ConvergenceResult)> = Vec::new();
    let mut i: usize = 0;
    while i < remote_heads.len()
        invariant
            store.wf(),
            0 <= i <= remote_heads@.len(),
            results@.len() == i,
            forall|k: int| 0 <= k < i ==> (#[trigger] results@[k]).0 == remote_heads@[k].0,
            forall|k: int|
                0 <= k < i ==> ((#[trigger] results@[k]).1 is Converged <==> head_matches(
                    *store,
                    remote_heads@[k].0.0@,
                    remote_heads@[k].1,
                    remote_heads@[k].2.0@,
                )),
        decreases remote_heads@.len() - i,
    {
        let (sid, seq, id) = remote_heads[i];
        let res = verify_convergence(store, &sid, seq, &id, None);
        results.push((sid, res));
        i = i + 1;
    }
    results
}

} // verus!
