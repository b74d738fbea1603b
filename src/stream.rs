//! Streams: per-author append-only logs, and the state kept for each.
use vstd::prelude::*;
use crate::bytes::{append_bytes, eq32, hex_of, to_hex_string};
use crate::crypto::{blake3_of, Blake3Hash, Ed25519PublicKey};
use crate::types::ReceiptId;
use vstd::string::StringSliceAdditionalSpecFns;
use vstd::utf8::encode_utf8;

verus! {

/// A 32-byte stream identifier.
#[derive(Debug, Clone, Copy)]
pub struct StreamId(pub [u8; 32]);

impl PartialEq for StreamId {
    fn eq(&self, o: &StreamId) -> (r: bool) {
        eq32(&self.0, &o.0)
    }
}

impl vstd::std_specs::cmp::PartialEqSpecImpl for StreamId {
    open spec fn obeys_eq_spec() -> bool {
        true
    }

    open spec fn eq_spec(&self, o: &StreamId) -> bool {
        self.0@ == o.0@
    }
}

impl Eq for StreamId {}

/// The domain prefix of stream ids: the ASCII bytes of `chainge-stream-v0:`.
pub open spec fn stream_domain() -> Seq<u8> {
    seq![99u8, 104, 97, 105, 110, 103, 101, 45, 115, 116, 114, 101, 97, 109, 45, 118, 48, 58]
}

/// The id of the stream that `author` names `name` (UTF-8 bytes).
pub open spec fn stream_id_of(author: Seq<u8>, name: Seq<u8>) -> Seq<u8> {
    blake3_of(stream_domain() + author + seq![58u8] + name)
}

impl StreamId {
    /// Derives the id of `author`'s stream named `stream_name`.
    pub fn derive(author: &Ed25519PublicKey, stream_name: &str) -> (r: StreamId)
        ensures
            r.0@ == stream_id_of(author.0@, stream_name.spec_bytes()),
    {
        let domain: [u8; 18] = [99, 104, 97, 105, 110, 103, 101, 45, 115, 116, 114, 101, 97, 109, 45, 118, 48, 58];
        let mut msg: Vec<u8> = Vec::new();
        append_bytes(&mut msg, domain.as_slice());
        assert(domain@ =~= stream_domain());
        append_bytes(&mut msg, author.0.as_slice());
        msg.push(58);
        let ghost with_colon = msg@;
        append_bytes(&mut msg, stream_name.as_bytes());
        assert(with_colon =~= stream_domain() + author.0@ + seq![58u8]);
        StreamId(Blake3Hash::hash(msg.as_slice()).0)
    }

    pub fn from_bytes(bytes: [u8; 32]) -> (r: StreamId)
        ensures
            r.0 == bytes,
    {
        StreamId(bytes)
    }

    pub fn as_bytes(&self) -> (r: &[u8; 32])
        ensures
            *r == self.0,
    {
        &self.0
    }

    /// Lowercase hex of the 32 bytes.
    pub fn to_hex(&self) -> (r: String)
        ensures
            r@ == hex_of(self.0@),
    {
        to_hex_string(&self.0)
    }

    /// Parses lowercase hex of 32 bytes (as `to_hex` writes it).
    pub fn from_hex(s: &str) -> (r: Result<StreamId, crate::bytes::HexError>)
        ensures
            forall|b: Seq<u8>| b.len() == 32 && #[trigger] hex_of(b) == s@ ==> (r matches Ok(v) && v.0@ == b),
            r is Ok ==> s@.len() == 64,
    {
        match crate::bytes::decode_hex32(s) {
            Ok(a) => Ok(StreamId(a)),
            Err(e) => Err(e),
        }
    }

    /// The all-zero stream id, used as a sentinel.
    pub fn zero() -> (r: StreamId)
        ensures
            r.0@ == Seq::new(32, |i: int| 0u8),
    {
        let r = StreamId([0u8; 32]);
        assert(r.0@ =~= Seq::new(32, |i: int| 0u8));
        r
    }
}

/// Whether a sequence of numbers is strictly increasing.
pub open spec fn strictly_sorted(s: Seq<u64>) -> bool {
    forall|i: int, j: int| 0 <= i < j < s.len() ==> s[i] < s[j]
}

/// The health of a stream.
#[derive(Debug, Clone, PartialEq, Eq)]
pub enum StreamHealth {
    /// Receipts are contiguous.
    Healthy,
    /// Some sequence numbers below the highest known one are missing.
    HasGaps { missing: Vec<u64> },
    /// Two distinct receipts were seen at one sequence number.
    Forked { at_seq: u64, receipts: Vec<ReceiptId> },
}

impl StreamHealth {
    pub fn is_healthy(&self) -> (r: bool)
        ensures
            r == self is Healthy,
    {
        match self {
            StreamHealth::Healthy => true,
            _ => false,
        }
    }

    pub fn has_gaps(&self) -> (r: bool)
        ensures
            r == self is HasGaps,
    {
        match self {
            StreamHealth::HasGaps { .. } => true,
            _ => false,
        }
    }

    pub fn is_forked(&self) -> (r: bool)
        ensures
            r == self is Forked,
    {
        match self {
            StreamHealth::Forked { .. } => true,
            _ => false,
        }
    }
}

/// What recording a receipt did to a stream's state.
#[derive(Debug, Clone, Copy, PartialEq, Eq, Structural)]
pub enum RecordResult {
    /// The receipt extends the head.
    Accepted,
    /// The receipt lies beyond the head; the sequence numbers between became gaps.
    AcceptedWithGaps,
    /// The receipt filled a known gap.
    GapFilled,
    /// The sequence number was already covered.
    Duplicate,
}

/// An event of a stream replay.
#[derive(Debug, Clone)]
pub struct ReplayEvent {
    pub receipt_id: ReceiptId,
    pub seq: u64,
    pub is_tombstoned: bool,
    pub tombstoned_by: Option<ReceiptId>,
}

/// Per-stream bookkeeping: head, gaps, health.
#[derive(Debug, Clone)]
pub struct StreamState {
    pub stream_id: StreamId,
    pub author: Ed25519PublicKey,
    /// The name that `stream_id` was derived from.
    pub stream_name: String,
    /// Highest contiguous sequence number held.
    pub head_seq: u64,
    /// Id of the receipt at `head_seq`.
    pub head_receipt_id: Option<ReceiptId>,
    /// Highest sequence number heard of.
    pub known_max_seq: u64,
    /// Missing sequence numbers, ascending.
    pub gaps: Vec<u64>,
    /// Rolling hash over the contiguous receipt ids, when computed.
    pub state_hash: Option<Blake3Hash>,
    pub health: StreamHealth,
    /// Local creation time.
    pub created_at: i64,
    /// Local time of the last update.
    pub updated_at: i64,
}

/// Whether `h` is the health that the gaps dictate (a fork mark is kept).
pub open spec fn health_matches(h: StreamHealth, gaps: Seq<u64>) -> bool {
    match h {
        StreamHealth::Forked { .. } => true,
        StreamHealth::Healthy => gaps.len() == 0,
        StreamHealth::HasGaps { missing } => gaps.len() > 0 && missing@ == gaps,
    }
}

/// Copies a vector of sequence numbers.
fn copy_seqs(v: &Vec<u64>) -> (r: Vec<u64>)
    ensures
        r@ == v@,
{
    let mut out: Vec<u64> = Vec::new();
    let mut i: usize = 0;
    while i < v.len()
        invariant
            0 <= i <= v@.len(),
            out@ == v@.subrange(0, i as int),
        decreases v@.len() - i,
    {
        out.push(v[i]);
        i = i + 1;
        assert(out@ =~= v@.subrange(0, i as int));
    }
    assert(v@.subrange(0, v@.len() as int) =~= v@);
    out
}

/// Whether a sorted vector holds `x`.
fn sorted_contains(v: &Vec<u64>, x: u64) -> (r: bool)
    ensures
        r == v@.contains(x),
{
    let mut i: usize = 0;
    while i < v.len()
        invariant
            0 <= i <= v@.len(),
            forall|j: int| 0 <= j < i ==> v@[j] != x,
        decreases v@.len() - i,
    {
        if v[i] == x {
            return true;
        }
        i = i + 1;
    }
    false
}

/// `v` without `x`; order is kept.
fn without(v: &Vec<u64>, x: u64) -> (r: Vec<u64>)
    requires
        strictly_sorted(v@),
    ensures
        strictly_sorted(r@),
        r@.to_set() == v@.to_set().remove(x),
        r@.len() <= v@.len(),
        forall|y: u64| r@.contains(y) <==> v@.contains(y) && y != x,
{
    let mut out: Vec<u64> = Vec::new();
    let mut i: usize = 0;
    while i < v.len()
        invariant
            0 <= i <= v@.len(),
            strictly_sorted(v@),
            strictly_sorted(out@),
            out@.len() <= i,
            forall|y: u64| out@.contains(y) <==> (exists|j: int| 0 <= j < i && v@[j] == y) && y != x,
        decreases v@.len() - i,
    {
        let ghost prev = out@;
        if v[i] != x {
            proof {
                assert forall|k: int| 0 <= k < out@.len() implies out@[k] < v@[i as int] by {
                    assert(out@.contains(out@[k]));
                    let j = choose|j: int| 0 <= j < i && v@[j] == out@[k];
                }
            }
            out.push(v[i]);
            proof {
                assert forall|y: u64| out@.contains(y) <==> (exists|j: int| 0 <= j < i + 1 && v@[j] == y) && y != x by {
                    if out@.contains(y) {
                        let k = choose|k: int| 0 <= k < out@.len() && out@[k] == y;
                        if k < prev.len() {
                            assert(prev.contains(y));
                        }
                    }
                    if (exists|j: int| 0 <= j < i + 1 && v@[j] == y) && y != x {
                        let j = choose|j: int| 0 <= j < i + 1 && v@[j] == y;
                        if j < i {
                            assert(prev.contains(y));
                            let k = choose|k: int| 0 <= k < prev.len() && prev[k] == y;
                            assert(out@[k] == y);
                        } else {
                            assert(out@[prev.len() as int] == y);
                        }
                    }
                }
            }
        } else {
            proof {
                assert forall|y: u64| out@.contains(y) <==> (exists|j: int| 0 <= j < i + 1 && v@[j] == y) && y != x by {
                    if (exists|j: int| 0 <= j < i + 1 && v@[j] == y) && y != x {
                        let j = choose|j: int| 0 <= j < i + 1 && v@[j] == y;
                        assert(j < i);
                    }
                }
            }
        }
        i = i + 1;
    }
    proof {
        assert forall|y: u64| out@.contains(y) <==> v@.contains(y) && y != x by {
            if v@.contains(y) {
                let j = choose|j: int| 0 <= j < v@.len() && v@[j] == y;
            }
        }
        assert(out@.to_set() =~= v@.to_set().remove(x));
    }
    out
}

/// `v` followed by every number in `lo..hi`; all of `v` lies below `lo`.
fn append_range(v: &Vec<u64>, lo: u64, hi: u64) -> (r: Vec<u64>)
    requires
        strictly_sorted(v@),
        lo <= hi,
        forall|i: int| 0 <= i < v@.len() ==> v@[i] < lo,
    ensures
        strictly_sorted(r@),
        forall|y: u64| r@.contains(y) <==> (lo <= y < hi || v@.contains(y)),
{
    let mut out = copy_seqs(v);
    let ghost n = v@.len();
    let mut x: u64 = lo;
    while x < hi
        invariant
            lo <= x <= hi,
            n == v@.len(),
            out@.len() == n + (x - lo),
            out@.subrange(0, n as int) == v@,
            forall|k: int| n <= k < out@.len() ==> out@[k] == lo + (k - n),
            strictly_sorted(v@),
            forall|i: int| 0 <= i < v@.len() ==> v@[i] < lo,
            strictly_sorted(out@),
        decreases hi - x,
    {
        let ghost before = out@;
        out.push(x);
        proof {
            assert(out@.subrange(0, n as int) =~= before.subrange(0, n as int));
            assert forall|a: int, b: int| 0 <= a < b < out@.len() implies out@[a] < out@[b] by {
                if b == out@.len() - 1 {
                    if a < n {
                        assert(out@[a] == before.subrange(0, n as int)[a]);
                    }
                }
            }
        }
        x = x + 1;
    }
    proof {
        assert forall|y: u64| out@.contains(y) <==> (lo <= y < hi || v@.contains(y)) by {
            if out@.contains(y) {
                let k = choose|k: int| 0 <= k < out@.len() && out@[k] == y;
                if k < n {
                    assert(out@.subrange(0, n as int)[k] == out@[k]);
                }
            }
            if lo <= y < hi {
                assert(out@[n + (y - lo)] == y);
            }
            if v@.contains(y) {
                let k = choose|k: int| 0 <= k < v@.len() && v@[k] == y;
                assert(out@.subrange(0, n as int)[k] == out@[k]);
            }
        }
    }
    out
}

impl StreamState {
    /// The invariant: gaps ascending, all strictly between the head and the
    /// highest known sequence number, and health in step with the gaps.
    pub open spec fn wf(&self) -> bool {
        &&& strictly_sorted(self.gaps@)
        &&& self.head_seq <= self.known_max_seq
        &&& forall|i: int|
            0 <= i < self.gaps@.len() ==> self.head_seq < #[trigger] self.gaps@[i] < self.known_max_seq
        &&& health_matches(self.health, self.gaps@)
    }

    /// The fields that no transition of the machine changes.
    pub open spec fn same_identity(&self, o: &StreamState) -> bool {
        &&& self.stream_id == o.stream_id
        &&& self.author == o.author
        &&& self.stream_name == o.stream_name
        &&& self.created_at == o.created_at
        &&& self.state_hash == o.state_hash
    }

    /// A fresh, empty, healthy stream state.
    pub fn new(author: Ed25519PublicKey, stream_name: String, now: i64) -> (r: StreamState)
        ensures
            r.wf(),
            r.stream_id.0@ == stream_id_of(author.0@, encode_utf8(stream_name@)),
            r.author == author,
            r.stream_name == stream_name,
            r.head_seq == 0,
            r.head_receipt_id is None,
            r.known_max_seq == 0,
            r.gaps@.len() == 0,
            r.state_hash is None,
            r.health is Healthy,
            r.created_at == now,
            r.updated_at == now,
    {
        let stream_id = StreamId::derive(&author, stream_name.as_str());
        StreamState {
            stream_id,
            author,
            stream_name,
            head_seq: 0,
            head_receipt_id: None,
            known_max_seq: 0,
            gaps: Vec::new(),
            state_hash: None,
            health: StreamHealth::Healthy,
            created_at: now,
            updated_at: now,
        }
    }

    /// A fresh state for a stream first seen through one of its receipts,
    /// whose name is not known.
    pub fn for_stream(stream_id: StreamId, author: Ed25519PublicKey, now: i64) -> (r: StreamState)
        ensures
            r.wf(),
            r.stream_id == stream_id,
            r.author == author,
            r.stream_name@.len() == 0,
            r.head_seq == 0,
            r.head_receipt_id is None,
            r.known_max_seq == 0,
            r.gaps@.len() == 0,
            r.state_hash is None,
            r.health is Healthy,
            r.created_at == now,
            r.updated_at == now,
    {
        StreamState {
            stream_id,
            author,
            stream_name: String::new(),
            head_seq: 0,
            head_receipt_id: None,
            known_max_seq: 0,
            gaps: Vec::new(),
            state_hash: None,
            health: StreamHealth::Healthy,
            created_at: now,
            updated_at: now,
        }
    }

    /// Sets health from the gaps unless the stream is forked.
    fn update_health(&mut self)
        ensures
            final(self).gaps == old(self).gaps,
            old(self).health is Forked ==> final(self).health == old(self).health,
            health_matches(final(self).health, final(self).gaps@),
            final(self).head_seq == old(self).head_seq,
            final(self).head_receipt_id == old(self).head_receipt_id,
            final(self).known_max_seq == old(self).known_max_seq,
            final(self).updated_at == old(self).updated_at,
            final(self).same_identity(old(self)),
            !(old(self).health is Forked) ==> !(final(self).health is Forked),
    {
        if self.health.is_forked() {
            return;
        }
        if self.gaps.len() == 0 {
            self.health = StreamHealth::Healthy;
        } else {
            self.health = StreamHealth::HasGaps { missing: copy_seqs(&self.gaps) };
        }
    }

    /// Records a receipt observed at `seq`.
    pub fn record_receipt(&mut self, seq: u64, receipt_id: ReceiptId, now: i64) -> (r: RecordResult)
        requires
            old(self).wf(),
        ensures
            final(self).wf(),
            final(self).same_identity(old(self)),
            !(old(self).health is Forked) ==> !(final(self).health is Forked),
            final(self).updated_at == now,
            final(self).known_max_seq == if seq > old(self).known_max_seq {
                seq
            } else {
                old(self).known_max_seq
            },
            old(self).health is Forked ==> final(self).health == old(self).health,
            seq == old(self).head_seq + 1 ==> {
                &&& r == RecordResult::Accepted
                &&& final(self).head_seq == seq
                &&& final(self).head_receipt_id == Some(receipt_id)
                &&& forall|y: u64| #[trigger] final(self).gaps@.contains(y) <==> old(self).gaps@.contains(y) && y != seq
            },
            seq != old(self).head_seq + 1 && old(self).gaps@.contains(seq) ==> {
                &&& r == RecordResult::GapFilled
                &&& final(self).head_seq == old(self).head_seq
                &&& final(self).head_receipt_id == old(self).head_receipt_id
                &&& forall|y: u64| #[trigger] final(self).gaps@.contains(y) <==> old(self).gaps@.contains(y) && y != seq
            },
            seq > old(self).head_seq + 1 && !old(self).gaps@.contains(seq) ==> {
                &&& r == RecordResult::AcceptedWithGaps
                &&& final(self).head_seq == old(self).head_seq
                &&& final(self).head_receipt_id == old(self).head_receipt_id
                &&& forall|y: u64| #[trigger] final(self).gaps@.contains(y) <==> (old(self).known_max_seq < y < seq || old(self).gaps@.contains(y))
            },
            seq <= old(self).head_seq ==> {
                &&& r == RecordResult::Duplicate
                &&& final(self).head_seq == old(self).head_seq
                &&& final(self).head_receipt_id == old(self).head_receipt_id
                &&& final(self).gaps == old(self).gaps
                &&& final(self).health == old(self).health
            },
    {
        let ghost old_gaps = self.gaps@;
        let old_max = self.known_max_seq;
        self.updated_at = now;
        if seq > self.known_max_seq {
            self.known_max_seq = seq;
        }
        if seq > self.head_seq && seq - self.head_seq == 1 {
            self.head_seq = seq;
            self.head_receipt_id = Some(receipt_id);
            self.gaps = without(&self.gaps, seq);
            proof {
                assert forall|i: int| 0 <= i < self.gaps@.len() implies self.head_seq < #[trigger] self.gaps@[i]
                    < self.known_max_seq by {
                    assert(self.gaps@.contains(self.gaps@[i]));
                    assert(old_gaps.contains(self.gaps@[i]));
                    let j = choose|j: int| 0 <= j < old_gaps.len() && old_gaps[j] == self.gaps@[i];
                }
            }
            self.update_health();
            return RecordResult::Accepted;
        }
        if sorted_contains(&self.gaps, seq) {
            self.gaps = without(&self.gaps, seq);
            proof {
                assert forall|i: int| 0 <= i < self.gaps@.len() implies self.head_seq < #[trigger] self.gaps@[i]
                    < self.known_max_seq by {
                    assert(self.gaps@.contains(self.gaps@[i]));
                    assert(old_gaps.contains(self.gaps@[i]));
                    let j = choose|j: int| 0 <= j < old_gaps.len() && old_gaps[j] == self.gaps@[i];
                }
            }
            self.update_health();
            return RecordResult::GapFilled;
        }
        if seq > self.head_seq && seq - self.head_seq > 1 {
            if seq > old_max {
                self.gaps = append_range(&self.gaps, old_max + 1, seq);
            }
            proof {
                assert forall|i: int| 0 <= i < self.gaps@.len() implies self.head_seq < #[trigger] self.gaps@[i]
                    < self.known_max_seq by {
                    assert(self.gaps@.contains(self.gaps@[i]));
                    if old_gaps.contains(self.gaps@[i]) {
                        let j = choose|j: int| 0 <= j < old_gaps.len() && old_gaps[j] == self.gaps@[i];
                    }
                }
            }
            self.update_health();
            return RecordResult::AcceptedWithGaps;
        }
        proof {
            assert forall|i: int| 0 <= i < self.gaps@.len() implies self.head_seq < #[trigger] self.gaps@[i] < self.known_max_seq by {}
        }
        RecordResult::Duplicate
    }

    /// Advances the head over sequence numbers whose receipt `get_receipt_at`
    /// finds and that are not gaps, stopping at the first that fails or at
    /// the highest known sequence number. Returns the new head if it moved.
    pub fn try_advance_head(&mut self, get_receipt_at: impl Fn(u64) -> Option<ReceiptId>) -> (r: Option<u64>)
        requires
            old(self).wf(),
            forall|s: u64| get_receipt_at.requires((s,)),
        ensures
            final(self).wf(),
            final(self).same_identity(old(self)),
            final(self).gaps == old(self).gaps,
            final(self).known_max_seq == old(self).known_max_seq,
            final(self).updated_at == old(self).updated_at,
            !(old(self).health is Forked) ==> !(final(self).health is Forked),
            old(self).health is Forked ==> final(self).health == old(self).health,
            old(self).head_seq <= final(self).head_seq <= old(self).known_max_seq,
            forall|i: u64|
                old(self).head_seq < i <= final(self).head_seq ==> !old(self).gaps@.contains(i) && exists|id: ReceiptId|
                    get_receipt_at.ensures((i,), Some::<ReceiptId>(id)),
            final(self).head_seq > old(self).head_seq ==> (final(self).head_receipt_id matches Some(id)
                && get_receipt_at.ensures((final(self).head_seq,), Some::<ReceiptId>(id))),
            final(self).head_seq == old(self).head_seq ==> final(self).head_receipt_id == old(self).head_receipt_id,
            final(self).head_seq < final(self).known_max_seq ==> (old(self).gaps@.contains(
                (final(self).head_seq + 1) as u64,
            ) || get_receipt_at.ensures(((final(self).head_seq + 1) as u64,), None::<ReceiptId>)),
            r == if final(self).head_seq > old(self).head_seq {
                Some(final(self).head_seq)
            } else {
                None::<u64>
            },
    {
        let original_head = self.head_seq;
        let ghost start = *self;
        let mut blocked = false;
        while !blocked && self.head_seq < self.known_max_seq
            invariant
                blocked ==> self.head_seq < self.known_max_seq && (start.gaps@.contains(
                    (self.head_seq + 1) as u64,
                ) || get_receipt_at.ensures(((self.head_seq + 1) as u64,), None::<ReceiptId>)),
                self.wf(),
                self.same_identity(&start),
                self.gaps == start.gaps,
                self.known_max_seq == start.known_max_seq,
                self.updated_at == start.updated_at,
                self.health == start.health,
                original_head == start.head_seq,
                start.head_seq <= self.head_seq <= start.known_max_seq,
                forall|s: u64| get_receipt_at.requires((s,)),
                forall|i: u64|
                    start.head_seq < i <= self.head_seq ==> !start.gaps@.contains(i) && exists|id: ReceiptId|
                        #[trigger] get_receipt_at.ensures((i,), Some::<ReceiptId>(id)),
                self.head_seq > start.head_seq ==> (self.head_receipt_id matches Some(id)
                    && get_receipt_at.ensures((self.head_seq,), Some::<ReceiptId>(id))),
                self.head_seq == start.head_seq ==> self.head_receipt_id == start.head_receipt_id,
            decreases self.known_max_seq - self.head_seq + (if blocked { 0int } else { 1int }),
        {
            let next_seq = self.head_seq + 1;
            match get_receipt_at(next_seq) {
                Some(receipt_id) => {
                    if !sorted_contains(&self.gaps, next_seq) {
                        self.head_seq = next_seq;
                        self.head_receipt_id = Some(receipt_id);
                        proof {
                            assert forall|i: int| 0 <= i < self.gaps@.len() implies self.head_seq
                                < #[trigger] self.gaps@[i] < self.known_max_seq by {
                                assert(self.gaps@.contains(self.gaps@[i]));
                            }
                        }
                    } else {
                        blocked = true;
                    }
                },
                None => {
                    blocked = true;
                },
            }
        }
        if self.head_seq > original_head {
            self.update_health();
            Some(self.head_seq)
        } else {
            None
        }
    }

    /// Marks the stream forked at `at_seq` with the conflicting receipt ids.
    pub fn mark_forked(&mut self, at_seq: u64, receipts: Vec<ReceiptId>, now: i64)
        requires
            old(self).wf(),
        ensures
            final(self).wf(),
            final(self).health == (StreamHealth::Forked { at_seq, receipts }),
            final(self).updated_at == now,
            final(self).same_identity(old(self)),
            final(self).gaps == old(self).gaps,
            final(self).head_seq == old(self).head_seq,
            final(self).head_receipt_id == old(self).head_receipt_id,
            final(self).known_max_seq == old(self).known_max_seq,
    {
        self.health = StreamHealth::Forked { at_seq, receipts };
        self.updated_at = now;
    }

    pub fn is_healthy(&self) -> (r: bool)
        ensures
            r == self.health is Healthy,
    {
        self.health.is_healthy()
    }

    pub fn is_forked(&self) -> (r: bool)
        ensures
            r == self.health is Forked,
    {
        self.health.is_forked()
    }

    /// The missing sequence numbers, ascending.
    pub fn missing_seqs(&self) -> (r: Vec<u64>)
        ensures
            r@ == self.gaps@,
    {
        copy_seqs(&self.gaps)
    }
}

} // verus!
