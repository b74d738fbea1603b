//! An in-memory receipt store: idempotent insert keyed by receipt id, a
//! position index per stream, stream states and a fork log.
use vstd::prelude::*;
use crate::bytes::slice_to_vec;
use crate::crypto::Ed25519PublicKey;
use crate::receipt::{spec_receipt_id, Receipt, ReceiptHeader, ReceiptModel};
use crate::stream::{strictly_sorted, StreamId, StreamState};
use crate::types::ReceiptId;

verus! {

/// What inserting a receipt did.
#[derive(Debug, Clone, Copy, PartialEq, Eq)]
pub enum InsertResult {
    /// Newly stored.
    Inserted,
    /// A receipt with the same id is already stored; nothing changed.
    AlreadyExists,
    /// A different receipt holds the same stream position; nothing changed.
    Conflict { existing: ReceiptId },
}

/// Evidence of a fork: a receipt seen at a contested position.
#[derive(Debug, Clone, Copy, PartialEq, Eq)]
pub struct Fork {
    pub stream_id: StreamId,
    pub seq: u64,
    pub receipt_id: ReceiptId,
    pub detected_at: i64,
}

/// A stored receipt with its id and canonical bytes.
#[derive(Debug)]
pub struct StoreEntry {
    pub id: ReceiptId,
    pub receipt: Receipt,
    pub canonical: Vec<u8>,
}

/// Whether some entry has id `id`.
pub open spec fn holds_id(entries: Seq<StoreEntry>, id: Seq<u8>) -> bool {
    exists|i: int| 0 <= i < entries.len() && (#[trigger] entries[i]).id.0@ == id
}

/// Whether entry `e` sits at position `seq` of stream `sid`.
pub open spec fn at_position(e: StoreEntry, sid: Seq<u8>, seq: u64) -> bool {
    e.receipt.header.stream_id.0@ == sid && e.receipt.header.seq == seq
}

/// Whether some entry sits at position `seq` of stream `sid`.
pub open spec fn holds_position(entries: Seq<StoreEntry>, sid: Seq<u8>, seq: u64) -> bool {
    exists|i: int| 0 <= i < entries.len() && at_position(#[trigger] entries[i], sid, seq)
}

/// The outcome of inserting `r` into `before`, giving `after`.
pub open spec fn insert_relation(
    before: Seq<StoreEntry>,
    after: Seq<StoreEntry>,
    r: ReceiptModel,
    res: InsertResult,
) -> bool {
    let id = spec_receipt_id(r);
    if holds_id(before, id) {
        res == InsertResult::AlreadyExists && after == before
    } else if holds_position(before, r.header.stream_id, r.header.seq) {
        &&& after == before
        &&& res matches InsertResult::Conflict { existing }
        &&& exists|i: int|
            0 <= i < before.len() && at_position(#[trigger] before[i], r.header.stream_id, r.header.seq)
                && before[i].id == existing
    } else {
        &&& res == InsertResult::Inserted
        &&& after.len() == before.len() + 1
        &&& after.subrange(0, before.len() as int) == before
        &&& after.last().id.0@ == id
        &&& after.last().receipt@ == r
    }
}

/// Copies a receipt field by field.
pub fn copy_receipt(r: &Receipt) -> (c: Receipt)
    ensures
        c@ == r@,
{
    let mut refs: Vec<ReceiptId> = Vec::new();
    let mut i: usize = 0;
    while i < r.header.refs.len()
        invariant
            0 <= i <= r.header.refs@.len(),
            refs@ == r.header.refs@.subrange(0, i as int),
        decreases r.header.refs@.len() - i,
    {
        refs.push(r.header.refs[i]);
        i = i + 1;
        assert(refs@ =~= r.header.refs@.subrange(0, i as int));
    }
    assert(refs@ =~= r.header.refs@);
    let header = ReceiptHeader {
        version: r.header.version,
        author: r.header.author,
        stream_id: r.header.stream_id,
        seq: r.header.seq,
        timestamp: r.header.timestamp,
        kind: r.header.kind,
        prev_receipt_id: r.header.prev_receipt_id,
        refs,
        payload_hash: r.header.payload_hash,
    };
    let payload = slice_to_vec(r.payload.as_slice(), 0, r.payload.len());
    assert(payload@ =~= r.payload@);
    Receipt { header, payload, signature: r.signature }
}

/// Receipts, stream states and fork evidence, held in memory.
pub struct MemoryStore {
    entries: Vec<StoreEntry>,
    streams: Vec<StreamState>,
    forks: Vec<Fork>,
}

impl MemoryStore {
    pub closed spec fn entries_view(&self) -> Seq<StoreEntry> {
        self.entries@
    }

    pub closed spec fn streams_view(&self) -> Seq<StreamState> {
        self.streams@
    }

    pub closed spec fn forks_view(&self) -> Seq<Fork> {
        self.forks@
    }

    /// Ids are content hashes and unique; positions are unique; one state per
    /// stream, each well formed.
    pub open spec fn wf(&self) -> bool {
        &&& forall|i: int|
            0 <= i < self.entries_view().len() ==> (#[trigger] self.entries_view()[i]).id.0@ == spec_receipt_id(
                self.entries_view()[i].receipt@,
            )
        &&& forall|i: int, j: int|
            0 <= i < j < self.entries_view().len() ==> (#[trigger] self.entries_view()[i]).id.0@
                != (#[trigger] self.entries_view()[j]).id.0@
        &&& forall|i: int, j: int|
            0 <= i < j < self.entries_view().len() ==> !at_position(
                #[trigger] self.entries_view()[i],
                (#[trigger] self.entries_view()[j]).receipt.header.stream_id.0@,
                self.entries_view()[j].receipt.header.seq,
            )
        &&& forall|i: int, j: int|
            0 <= i < j < self.streams_view().len() ==> (#[trigger] self.streams_view()[i]).stream_id.0@
                != (#[trigger] self.streams_view()[j]).stream_id.0@
        &&& forall|i: int| 0 <= i < self.streams_view().len() ==> (#[trigger] self.streams_view()[i]).wf()
    }

    /// An empty store.
    pub fn new() -> (r: MemoryStore)
        ensures
            r.wf(),
            r.consistent(),
            r.entries_view().len() == 0,
            r.streams_view().len() == 0,
            r.forks_view().len() == 0,
    {
        MemoryStore { entries: Vec::new(), streams: Vec::new(), forks: Vec::new() }
    }

    fn find_id(&self, id: &ReceiptId) -> (r: Option<usize>)
        ensures
            match r {
                Some(i) => i < self.entries_view().len() && self.entries_view()[i as int].id.0@ == id.0@,
                None => !holds_id(self.entries_view(), id.0@),
            },
    {
        let mut i: usize = 0;
        while i < self.entries.len()
            invariant
                0 <= i <= self.entries@.len(),
                forall|j: int| 0 <= j < i ==> self.entries@[j].id.0@ != id.0@,
            decreases self.entries@.len() - i,
        {
            if self.entries[i].id == *id {
                return Some(i);
            }
            i = i + 1;
        }
        None
    }

    fn find_position(&self, stream_id: &StreamId, seq: u64) -> (r: Option<usize>)
        ensures
            match r {
                Some(i) => i < self.entries_view().len() && at_position(self.entries_view()[i as int], stream_id.0@, seq),
                None => !holds_position(self.entries_view(), stream_id.0@, seq),
            },
    {
        let mut i: usize = 0;
        while i < self.entries.len()
            invariant
                0 <= i <= self.entries@.len(),
                forall|j: int| 0 <= j < i ==> !at_position(#[trigger] self.entries@[j], stream_id.0@, seq),
            decreases self.entries@.len() - i,
        {
            if self.entries[i].receipt.header.stream_id == *stream_id && self.entries[i].receipt.header.seq == seq {
                return Some(i);
            }
            i = i + 1;
        }
        None
    }

    /// Stores `receipt` unless a receipt with its id is already stored
    /// (AlreadyExists) or another receipt holds its stream position
    /// (Conflict, naming that receipt).
    pub fn insert_receipt(&mut self, receipt: &Receipt, canonical: &[u8]) -> (r: InsertResult)
        requires
            old(self).wf(),
        ensures
            final(self).wf(),
            insert_relation(old(self).entries_view(), final(self).entries_view(), receipt@, r),
            final(self).streams_view() == old(self).streams_view(),
            final(self).forks_view() == old(self).forks_view(),
    {
        let receipt_id = receipt.compute_id();
        if self.find_id(&receipt_id).is_some() {
            return InsertResult::AlreadyExists;
        }
        match self.find_position(&receipt.header.stream_id, receipt.header.seq) {
            Some(i) => {
                return InsertResult::Conflict { existing: self.entries[i].id };
            },
            None => {},
        }
        let entry = StoreEntry {
            id: receipt_id,
            receipt: copy_receipt(receipt),
            canonical: slice_to_vec(canonical, 0, canonical.len()),
        };
        let ghost before = self.entries@;
        self.entries.push(entry);
        proof {
            assert(self.entries@.subrange(0, before.len() as int) =~= before);
            assert forall|i: int, j: int| 0 <= i < j < self.entries_view().len() implies !at_position(
                #[trigger] self.entries_view()[i],
                (#[trigger] self.entries_view()[j]).receipt.header.stream_id.0@,
                self.entries_view()[j].receipt.header.seq,
            ) by {
                if j == before.len() {
                    assert(before[i] == self.entries@[i]);
                }
            }
        }
        InsertResult::Inserted
    }

    /// The stored receipt with id `id`.
    pub fn get_receipt(&self, id: &ReceiptId) -> (r: Option<&Receipt>)
        ensures
            match r {
                Some(rc) => exists|i: int|
                    0 <= i < self.entries_view().len() && self.entries_view()[i].id.0@ == id.0@ && *rc
                        == (#[trigger] self.entries_view()[i]).receipt,
                None => !holds_id(self.entries_view(), id.0@),
            },
    {
        match self.find_id(id) {
            Some(i) => Some(&self.entries[i].receipt),
            None => None,
        }
    }

    /// The canonical bytes stored with the receipt `id`.
    pub fn get_canonical_bytes(&self, id: &ReceiptId) -> (r: Option<&Vec<u8>>)
        ensures
            match r {
                Some(b) => exists|i: int|
                    0 <= i < self.entries_view().len() && self.entries_view()[i].id.0@ == id.0@ && *b
                        == (#[trigger] self.entries_view()[i]).canonical,
                None => !holds_id(self.entries_view(), id.0@),
            },
    {
        match self.find_id(id) {
            Some(i) => Some(&self.entries[i].canonical),
            None => None,
        }
    }

    /// Whether a receipt with id `id` is stored.
    pub fn has_receipt(&self, id: &ReceiptId) -> (r: bool)
        ensures
            r == holds_id(self.entries_view(), id.0@),
    {
        self.find_id(id).is_some()
    }

    /// The stored receipt at position `seq` of `stream_id`.
    pub fn get_receipt_by_position(&self, stream_id: &StreamId, seq: u64) -> (r: Option<&Receipt>)
        ensures
            match r {
                Some(rc) => exists|i: int|
                    0 <= i < self.entries_view().len() && at_position(self.entries_view()[i], stream_id.0@, seq)
                        && *rc == (#[trigger] self.entries_view()[i]).receipt,
                None => !holds_position(self.entries_view(), stream_id.0@, seq),
            },
    {
        match self.find_position(stream_id, seq) {
            Some(i) => Some(&self.entries[i].receipt),
            None => None,
        }
    }

    /// The id of the receipt at position `seq` of `stream_id`.
    pub fn get_receipt_id_at(&self, stream_id: &StreamId, seq: u64) -> (r: Option<ReceiptId>)
        requires
            self.wf(),
        ensures
            r matches Some(id) ==> id.0@ == stored_id_at(self.entries_view(), stream_id.0@, seq),
            match r {
                Some(id) => exists|i: int|
                    0 <= i < self.entries_view().len() && at_position(#[trigger] self.entries_view()[i], stream_id.0@, seq)
                        && self.entries_view()[i].id == id,
                None => !holds_position(self.entries_view(), stream_id.0@, seq),
            },
    {
        match self.find_position(stream_id, seq) {
            Some(i) => {
                proof {
                    let es = self.entries_view();
                    let j = choose|j: int| 0 <= j < es.len() && at_position(#[trigger] es[j], stream_id.0@, seq);
                    if j != i {
                        if j < i {
                            assert(!at_position(es[j], es[i as int].receipt.header.stream_id.0@, es[i as int].receipt.header.seq));
                        } else {
                            assert(!at_position(es[i as int], es[j].receipt.header.stream_id.0@, es[j].receipt.header.seq));
                        }
                    }
                }
                Some(self.entries[i].id)
            },
            None => None,
        }
    }

    /// The state kept for `stream_id`.
    pub fn get_stream_state(&self, stream_id: &StreamId) -> (r: Option<&StreamState>)
        requires
            self.wf(),
        ensures
            r matches Some(st) ==> self.find_stream_spec(stream_id.0@) == Some(*st),
            r is None ==> self.find_stream_spec(stream_id.0@) is None,
            match r {
                Some(st) => exists|i: int|
                    0 <= i < self.streams_view().len() && *st == #[trigger] self.streams_view()[i] && st.stream_id.0@
                        == stream_id.0@,
                None => !holds_stream(self.streams_view(), stream_id.0@),
            },
    {
        match self.find_stream(stream_id) {
            Some(i) => Some(&self.streams[i]),
            None => None,
        }
    }

    fn find_stream(&self, stream_id: &StreamId) -> (r: Option<usize>)
        requires
            self.wf(),
        ensures
            match r {
                Some(i) => i < self.streams_view().len() && self.streams_view()[i as int].stream_id.0@ == stream_id.0@
                    && self.find_stream_spec(stream_id.0@) == Some(self.streams_view()[i as int]),
                None => !holds_stream(self.streams_view(), stream_id.0@),
            },
    {
        let mut i: usize = 0;
        while i < self.streams.len()
            invariant
                self.wf(),
                0 <= i <= self.streams@.len(),
                forall|j: int| 0 <= j < i ==> self.streams@[j].stream_id.0@ != stream_id.0@,
            decreases self.streams@.len() - i,
        {
            if self.streams[i].stream_id == *stream_id {
                proof {
                    let k = choose|k: int| 0 <= k < self.streams_view().len() && (#[trigger] self.streams_view()[k]).stream_id.0@ == stream_id.0@;
                    if k != i {
                        if k < i {
                            assert(self.streams_view()[k].stream_id.0@ != self.streams_view()[i as int].stream_id.0@);
                        } else {
                            assert(self.streams_view()[i as int].stream_id.0@ != self.streams_view()[k].stream_id.0@);
                        }
                    }
                }
                return Some(i);
            }
            i = i + 1;
        }
        None
    }

    /// Replaces the state of `state.stream_id`, or adds it.
    pub fn upsert_stream_state(&mut self, state: StreamState)
        requires
            old(self).wf(),
            state.wf(),
        ensures
            final(self).wf(),
            final(self).entries_view() == old(self).entries_view(),
            final(self).forks_view() == old(self).forks_view(),
            holds_stream(final(self).streams_view(), state.stream_id.0@),
            forall|st: StreamState|
                #[trigger] final(self).streams_view().contains(st) <==> (st == state || (old(self).streams_view().contains(st)
                    && st.stream_id.0@ != state.stream_id.0@)),
    {
        match self.find_stream(&state.stream_id) {
            Some(i) => {
                let ghost before = self.streams@;
                self.streams.set(i, state);
                proof {
                    assert(self.streams@[i as int] == state);
                    assert forall|st: StreamState| #[trigger] self.streams@.contains(st) <==> (st == state || (
                        before.contains(st) && st.stream_id.0@ != state.stream_id.0@)) by {
                        if before.contains(st) && st.stream_id.0@ != state.stream_id.0@ {
                            let k = choose|k: int| 0 <= k < before.len() && before[k] == st;
                            assert(k != i);
                            assert(self.streams@[k] == st);
                        }
                        if self.streams@.contains(st) && st != state {
                            let k = choose|k: int| 0 <= k < self.streams@.len() && self.streams@[k] == st;
                            assert(k != i);
                            assert(before[k] == st);
                            if st.stream_id.0@ == state.stream_id.0@ {
                                if k < i {
                                    assert(before[k].stream_id.0@ != before[i as int].stream_id.0@);
                                } else {
                                    assert(before[i as int].stream_id.0@ != before[k].stream_id.0@);
                                }
                            }
                        }
                    }
                    assert(self.streams@[i as int].stream_id.0@ == state.stream_id.0@);
                }
            },
            None => {
                let ghost before = self.streams@;
                self.streams.push(state);
                proof {
                    assert(self.streams@[before.len() as int] == state);
                    assert forall|st: StreamState| #[trigger] self.streams@.contains(st) <==> (st == state || (
                        before.contains(st) && st.stream_id.0@ != state.stream_id.0@)) by {
                        if before.contains(st) {
                            let k = choose|k: int| 0 <= k < before.len() && before[k] == st;
                            assert(self.streams@[k] == st);
                        }
                        if self.streams@.contains(st) && st != state {
                            let k = choose|k: int| 0 <= k < self.streams@.len() && self.streams@[k] == st;
                            assert(before[k] == st);
                        }
                    }
                }
            },
        }
    }

    /// Records fork evidence; a record with the same stream, position and
    /// receipt is kept only once.
    pub fn record_fork(&mut self, stream_id: &StreamId, seq: u64, receipt_id: &ReceiptId, now: i64)
        requires
            old(self).wf(),
        ensures
            final(self).wf(),
            final(self).entries_view() == old(self).entries_view(),
            final(self).streams_view() == old(self).streams_view(),
            (exists|i: int|
                0 <= i < old(self).forks_view().len() && fork_matches(
                    #[trigger] old(self).forks_view()[i],
                    stream_id.0@,
                    seq,
                    receipt_id.0@,
                )) ==> final(self).forks_view() == old(self).forks_view(),
            !(exists|i: int|
                0 <= i < old(self).forks_view().len() && fork_matches(
                    #[trigger] old(self).forks_view()[i],
                    stream_id.0@,
                    seq,
                    receipt_id.0@,
                )) ==> final(self).forks_view() == old(self).forks_view().push(
                Fork { stream_id: *stream_id, seq, receipt_id: *receipt_id, detected_at: now },
            ),
    {
        let mut i: usize = 0;
        let mut found = false;
        while i < self.forks.len() && !found
            invariant
                0 <= i <= self.forks@.len(),
                found ==> exists|j: int| 0 <= j < self.forks@.len() && fork_matches(#[trigger] self.forks@[j], stream_id.0@, seq, receipt_id.0@),
                !found ==> forall|j: int| 0 <= j < i ==> !fork_matches(#[trigger] self.forks@[j], stream_id.0@, seq, receipt_id.0@),
            decreases self.forks@.len() - i + (if found { 0int } else { 1int }),
        {
            let f = &self.forks[i];
            if f.stream_id == *stream_id && f.seq == seq && f.receipt_id == *receipt_id {
                assert(fork_matches(self.forks@[i as int], stream_id.0@, seq, receipt_id.0@));
                found = true;
            } else {
                i = i + 1;
            }
        }
        if !found {
            self.forks.push(Fork { stream_id: *stream_id, seq, receipt_id: *receipt_id, detected_at: now });
        }
    }

    /// `(stream, head position, head id)` of every stream whose head is
    /// known, in the order the states are kept.
    pub fn get_all_stream_heads(&self) -> (r: Vec<(StreamId, u64, ReceiptId)>)
        ensures
            r@ == heads_of(self.streams_view()),
    {
        let mut out: Vec<(StreamId, u64, ReceiptId)> = Vec::new();
        let mut i: usize = 0;
        while i < self.streams.len()
            invariant
                0 <= i <= self.streams@.len(),
                out@ == heads_of(self.streams@.subrange(0, i as int)),
            decreases self.streams@.len() - i,
        {
            let st = &self.streams[i];
            proof {
                assert(self.streams@.subrange(0, i + 1).drop_last() =~= self.streams@.subrange(0, i as int));
            }
            match st.head_receipt_id {
                Some(h) => {
                    out.push((st.stream_id, st.head_seq, h));
                },
                None => {},
            }
            i = i + 1;
        }
        assert(self.streams@.subrange(0, self.streams@.len() as int) =~= self.streams@);
        out
    }

    /// The missing positions of `stream_id`, ascending; none for an unknown stream.
    pub fn get_gaps(&self, stream_id: &StreamId) -> (r: Vec<u64>)
        requires
            self.wf(),
        ensures
            match self.find_stream_spec(stream_id.0@) {
                Some(st) => r@ == st.gaps@,
                None => r@.len() == 0,
            },
    {
        match self.find_stream(stream_id) {
            Some(i) => self.streams[i].missing_seqs(),
            None => Vec::new(),
        }
    }

    /// The state kept for stream `sid`, if any (states are unique per stream).
    pub open spec fn find_stream_spec(&self, sid: Seq<u8>) -> Option<StreamState> {
        if holds_stream(self.streams_view(), sid) {
            Some(self.streams_view()[choose|k: int| 0 <= k < self.streams_view().len() && (#[trigger] self.streams_view()[k]).stream_id.0@ == sid])
        } else {
            None
        }
    }

    /// The ids of the streams kept, in order; only those by `author` when given.
    pub fn list_streams(&self, author: Option<&Ed25519PublicKey>) -> (r: Vec<StreamId>)
        ensures
            r@ == self.streams_view().filter(|st: StreamState| author matches Some(a) ==> st.author.0@ == a.0@).map_values(
                |st: StreamState| st.stream_id,
            ),
    {
        let mut out: Vec<StreamId> = Vec::new();
        let mut i: usize = 0;
        while i < self.streams.len()
            invariant
                0 <= i <= self.streams@.len(),
                out@ == self.streams@.subrange(0, i as int).filter(
                    |st: StreamState| author matches Some(a) ==> st.author.0@ == a.0@,
                ).map_values(|st: StreamState| st.stream_id),
            decreases self.streams@.len() - i,
        {
            let st = &self.streams[i];
            proof {
                reveal(Seq::filter);
                assert(self.streams@.subrange(0, i + 1).drop_last() =~= self.streams@.subrange(0, i as int));
            }
            let keep = match author {
                Some(a) => st.author == *a,
                None => true,
            };
            let ghost before = out@;
            if keep {
                out.push(st.stream_id);
                assert(out@ =~= self.streams@.subrange(0, i + 1).filter(
                    |st: StreamState| author matches Some(a) ==> st.author.0@ == a.0@,
                ).map_values(|st: StreamState| st.stream_id));
            } else {
                assert(out@ =~= self.streams@.subrange(0, i + 1).filter(
                    |st: StreamState| author matches Some(a) ==> st.author.0@ == a.0@,
                ).map_values(|st: StreamState| st.stream_id));
            }
            i = i + 1;
        }
        assert(self.streams@.subrange(0, self.streams@.len() as int) =~= self.streams@);
        out
    }

    /// The fork evidence recorded for `stream_id`, in the order recorded.
    pub fn get_forks(&self, stream_id: &StreamId) -> (r: Vec<Fork>)
        ensures
            r@ == self.forks_view().filter(|f: Fork| f.stream_id.0@ == stream_id.0@),
    {
        let mut out: Vec<Fork> = Vec::new();
        let mut i: usize = 0;
        while i < self.forks.len()
            invariant
                0 <= i <= self.forks@.len(),
                out@ == self.forks@.subrange(0, i as int).filter(|f: Fork| f.stream_id.0@ == stream_id.0@),
            decreases self.forks@.len() - i,
        {
            let f = self.forks[i];
            proof {
                reveal(Seq::filter);
                assert(self.forks@.subrange(0, i + 1).drop_last() =~= self.forks@.subrange(0, i as int));
            }
            if f.stream_id == *stream_id {
                out.push(f);
            }
            i = i + 1;
        }
        assert(self.forks@.subrange(0, self.forks@.len() as int) =~= self.forks@);
        out
    }
}

/// `(stream, head position, head id)` of each state whose head is known, in order.
pub open spec fn heads_of(streams: Seq<StreamState>) -> Seq<(StreamId, u64, ReceiptId)>
    decreases streams.len(),
{
    if streams.len() == 0 {
        Seq::empty()
    } else {
        let rest = heads_of(streams.drop_last());
        match streams.last().head_receipt_id {
            Some(h) => rest.push((streams.last().stream_id, streams.last().head_seq, h)),
            None => rest,
        }
    }
}

/// The id stored at `seq` of `sid`.
pub open spec fn stored_id_at(entries: Seq<StoreEntry>, sid: Seq<u8>, seq: u64) -> Seq<u8> {
    entries[choose|j: int| 0 <= j < entries.len() && at_position(#[trigger] entries[j], sid, seq)].id.0@
}

/// Whether some state is kept for stream `sid`.
pub open spec fn holds_stream(streams: Seq<StreamState>, sid: Seq<u8>) -> bool {
    exists|i: int| 0 <= i < streams.len() && (#[trigger] streams[i]).stream_id.0@ == sid
}

/// Whether `forks` records receipt `rid` at position `seq` of `sid`.
pub open spec fn has_fork(forks: Seq<Fork>, sid: Seq<u8>, seq: u64, rid: Seq<u8>) -> bool {
    exists|k: int| 0 <= k < forks.len() && fork_matches(#[trigger] forks[k], sid, seq, rid)
}

/// Whether fork record `f` is for position `seq` of `sid` and receipt `rid`.
pub open spec fn fork_matches(f: Fork, sid: Seq<u8>, seq: u64, rid: Seq<u8>) -> bool {
    f.stream_id.0@ == sid && f.seq == seq && f.receipt_id.0@ == rid
}

/// A stream state agrees with the stored receipts: every position up to the
/// head is stored; every position above the head up to the highest known one
/// is stored or a gap; no gap is stored; nothing is stored beyond the
/// highest known position; and the position after the head is a gap or not
/// stored.
pub open spec fn state_consistent(st: StreamState, entries: Seq<StoreEntry>) -> bool {
    let sid = st.stream_id.0@;
    &&& forall|i: u64| 1 <= i <= st.head_seq ==> #[trigger] holds_position(entries, sid, i)
    &&& forall|i: u64|
        st.head_seq < i <= st.known_max_seq ==> #[trigger] holds_position(entries, sid, i) || st.gaps@.contains(i)
    &&& forall|i: u64| #[trigger] holds_position(entries, sid, i) ==> i <= st.known_max_seq
    &&& forall|i: u64| st.gaps@.contains(i) ==> !#[trigger] holds_position(entries, sid, i)
    &&& st.head_seq < u64::MAX ==> (st.gaps@.contains((st.head_seq + 1) as u64) || !holds_position(
        entries,
        sid,
        (st.head_seq + 1) as u64,
    ))
}

/// The position index of `entries`: the id stored at `seq` of `stream_id`.
fn position_in(entries: &Vec<StoreEntry>, stream_id: &StreamId, seq: u64) -> (r: Option<ReceiptId>)
    ensures
        r is Some <==> holds_position(entries@, stream_id.0@, seq),
{
    let mut i: usize = 0;
    while i < entries.len()
        invariant
            0 <= i <= entries@.len(),
            forall|j: int| 0 <= j < i ==> !at_position(#[trigger] entries@[j], stream_id.0@, seq),
        decreases entries@.len() - i,
    {
        if entries[i].receipt.header.stream_id == *stream_id && entries[i].receipt.header.seq == seq {
            assert(at_position(entries@[i as int], stream_id.0@, seq));
            return Some(entries[i].id);
        }
        i = i + 1;
    }
    None
}

proof fn lemma_positions_after_push(entries: Seq<StoreEntry>, e: StoreEntry, sid: Seq<u8>, i: u64)
    ensures
        holds_position(entries.push(e), sid, i) <==> holds_position(entries, sid, i) || at_position(e, sid, i),
{
    if holds_position(entries, sid, i) {
        let k = choose|k: int| 0 <= k < entries.len() && at_position(#[trigger] entries[k], sid, i);
        assert(entries.push(e)[k] == entries[k]);
    }
    if at_position(e, sid, i) {
        assert(entries.push(e)[entries.len() as int] == e);
    }
    if holds_position(entries.push(e), sid, i) {
        let k = choose|k: int| 0 <= k < entries.len() + 1 && at_position(#[trigger] entries.push(e)[k], sid, i);
        if k < entries.len() {
            assert(entries.push(e)[k] == entries[k]);
        }
    }
}

impl MemoryStore {
    /// The store invariant together with every stream state agreeing with
    /// the stored receipts, and a state for every stream that has receipts.
    pub open spec fn consistent(&self) -> bool {
        &&& self.wf()
        &&& forall|k: int|
            0 <= k < self.streams_view().len() ==> state_consistent(#[trigger] self.streams_view()[k], self.entries_view())
        &&& forall|i: int|
            0 <= i < self.entries_view().len() ==> holds_stream(
                self.streams_view(),
                (#[trigger] self.entries_view()[i]).receipt.header.stream_id.0@,
            )
    }

    /// Removes and returns the state of `stream_id`.
    fn take_stream(&mut self, stream_id: &StreamId) -> (r: Option<StreamState>)
        requires
            old(self).wf(),
        ensures
            final(self).entries_view() == old(self).entries_view(),
            final(self).forks_view() == old(self).forks_view(),
            match r {
                Some(st) => exists|k: int|
                    0 <= k < old(self).streams_view().len() && old(self).streams_view()[k] == st
                        && st.stream_id.0@ == stream_id.0@ && final(self).streams_view() == old(self).streams_view().remove(k),
                None => !holds_stream(old(self).streams_view(), stream_id.0@) && final(self).streams_view() == old(
                    self,
                ).streams_view(),
            },
    {
        match self.find_stream(stream_id) {
            Some(i) => {
                let st = self.streams.remove(i);
                Some(st)
            },
            None => None,
        }
    }

    /// Inserts `receipt` and brings its stream's state up to date. A newly
    /// stored receipt is recorded in the state and the head then advances
    /// over stored, non-gap positions. A conflict records fork evidence for
    /// both receipts and marks the stream forked at that position.
    #[verifier::rlimit(60)]
    pub fn insert_and_update_stream(&mut self, receipt: &Receipt, canonical: &[u8], now: i64) -> (r: InsertResult)
        requires
            old(self).consistent(),
        ensures
            final(self).consistent(),
            insert_relation(old(self).entries_view(), final(self).entries_view(), receipt@, r),
            r matches InsertResult::Conflict { existing } ==> exists|k: int|
                0 <= k < final(self).streams_view().len() && (#[trigger] final(self).streams_view()[k]).stream_id.0@
                    == receipt.header.stream_id.0@ && final(self).streams_view()[k].health is Forked
                    && final(self).streams_view()[k].health->Forked_at_seq == receipt.header.seq
                    && final(self).streams_view()[k].health->Forked_receipts@.len() == 2
                    && final(self).streams_view()[k].health->Forked_receipts@[0] == existing
                    && final(self).streams_view()[k].health->Forked_receipts@[1].0@ == spec_receipt_id(receipt@),
            r == InsertResult::AlreadyExists ==> final(self).streams_view() == old(self).streams_view(),
            r matches InsertResult::Conflict { existing } ==> has_fork(
                final(self).forks_view(),
                receipt.header.stream_id.0@,
                receipt.header.seq,
                existing.0@,
            ) && has_fork(
                final(self).forks_view(),
                receipt.header.stream_id.0@,
                receipt.header.seq,
                spec_receipt_id(receipt@),
            ),
            !(r is Conflict) ==> final(self).forks_view() == old(self).forks_view(),
    {
        let ghost entries0 = self.entries@;
        let ghost streams0 = self.streams@;
        let res = self.insert_receipt(receipt, canonical);
        let sid = receipt.header.stream_id;
        let seq = receipt.header.seq;
        let id = receipt.compute_id();
        match res {
            InsertResult::Inserted => {
                let ghost entries1 = self.entries@;
                let ghost e = entries1.last();
                proof {
                    assert(entries1 =~= entries0.push(e));
                    assert(at_position(e, sid.0@, seq));
                    assert forall|sid2: Seq<u8>, i: u64| #[trigger] holds_position(entries1, sid2, i) <==> holds_position(
                        entries0,
                        sid2,
                        i,
                    ) || (sid2 == sid.0@ && i == seq) by {
                        lemma_positions_after_push(entries0, e, sid2, i);
                    }
                }
                let taken = self.take_stream(&sid);
                let ghost streams1 = self.streams@;
                let mut state = match taken {
                    Some(st) => st,
                    None => {
                        proof {
                            assert forall|i: u64| !holds_position(entries0, sid.0@, i) by {
                                if holds_position(entries0, sid.0@, i) {
                                    let k = choose|k: int| 0 <= k < entries0.len() && at_position(#[trigger] entries0[k], sid.0@, i);
                                    assert(holds_stream(streams0, entries0[k].receipt.header.stream_id.0@));
                                }
                            }
                        }
                        StreamState::for_stream(sid, receipt.header.author, now)
                    },
                };
                assert(state.wf());
                assert(state_consistent(state, entries0)) by {
                    if taken is Some {
                        let k = choose|k: int| 0 <= k < streams0.len() && streams0[k] == state && state.stream_id.0@ == sid.0@
                            && streams1 == streams0.remove(k);
                        assert(state_consistent(streams0[k], entries0));
                    }
                }
                let ghost st0 = state;
                state.record_receipt(seq, id, now);
                let ghost st1 = state;
                let entries = &self.entries;
                let lookup = |s: u64| -> (o: Option<ReceiptId>)
                    ensures
                        o is Some <==> holds_position(entries@, sid.0@, s),
                    { position_in(entries, &sid, s) };
                let _ = state.try_advance_head(lookup);
                proof {
                    let st2 = state;
                    let sd = sid.0@;
                    assert(!holds_position(entries0, sd, seq));
                    assert forall|i: u64| st1.head_seq < i <= st2.head_seq implies #[trigger] holds_position(entries1, sd, i) by {
                        assert(!st1.gaps@.contains(i));
                        let w = choose|w: ReceiptId| #[trigger] lookup.ensures((i,), Some::<ReceiptId>(w));
                    }
                    if st2.head_seq < st2.known_max_seq {
                        if lookup.ensures(((st2.head_seq + 1) as u64,), None::<ReceiptId>) {
                            assert(!holds_position(entries1, sd, (st2.head_seq + 1) as u64));
                        }
                    }
                    assert forall|i: u64| 1 <= i <= st2.head_seq implies #[trigger] holds_position(entries1, sd, i) by {
                        if i <= st1.head_seq && i <= st0.head_seq {
                            assert(holds_position(entries0, sd, i));
                        }
                    }
                    assert forall|i: u64| #[trigger] holds_position(entries1, sd, i) implies i <= st2.known_max_seq by {
                        if i != seq {
                            assert(holds_position(entries0, sd, i));
                        }
                    }
                    assert forall|i: u64| st2.head_seq < i <= st2.known_max_seq implies #[trigger] holds_position(
                        entries1,
                        sd,
                        i,
                    ) || st2.gaps@.contains(i) by {
                        if i != seq && i <= st0.known_max_seq && i > st0.head_seq {
                            if !holds_position(entries0, sd, i) {
                                assert(st0.gaps@.contains(i));
                            }
                        }
                    }
                    assert(state_consistent(st2, entries1));
                }
                self.streams.push(state);
                proof {
                    lemma_streams_after_reinsert(streams0, streams1, taken, state, sid.0@);
                    assert forall|k: int| 0 <= k < self.streams@.len() implies state_consistent(
                        #[trigger] self.streams@[k],
                        entries1,
                    ) by {
                        if k < streams1.len() {
                            let st = self.streams@[k];
                            assert(streams1[k] == st);
                            assert(streams0.contains(st));
                            let k0 = choose|k0: int| 0 <= k0 < streams0.len() && streams0[k0] == st;
                            assert(state_consistent(streams0[k0], entries0));
                            assert(st.stream_id.0@ != sid.0@);
                        }
                    }
                    assert forall|i: int| 0 <= i < entries1.len() implies holds_stream(
                        self.streams@,
                        (#[trigger] entries1[i]).receipt.header.stream_id.0@,
                    ) by {
                        let si = entries1[i].receipt.header.stream_id.0@;
                        if si == sid.0@ {
                            assert(self.streams@[streams1.len() as int] == state);
                        } else {
                            assert(entries1[i] == entries0[i]);
                            let k0 = choose|k0: int| 0 <= k0 < streams0.len() && (#[trigger] streams0[k0]).stream_id.0@ == si;
                            assert(streams1.contains(streams0[k0]));
                            let k1 = choose|k1: int| 0 <= k1 < streams1.len() && streams1[k1] == streams0[k0];
                            assert(self.streams@[k1] == streams1[k1]);
                        }
                    }
                }
            },
            InsertResult::Conflict { existing } => {
                self.record_fork(&sid, seq, &existing, now);
                let ghost forks1 = self.forks@;
                proof {
                    if !has_fork(forks1, sid.0@, seq, existing.0@) {
                        assert(fork_matches(forks1[forks1.len() - 1], sid.0@, seq, existing.0@));
                    }
                }
                self.record_fork(&sid, seq, &id, now);
                proof {
                    let f2 = self.forks@;
                    let k = choose|k: int| 0 <= k < forks1.len() && fork_matches(#[trigger] forks1[k], sid.0@, seq, existing.0@);
                    assert(f2[k] == forks1[k]);
                    if !has_fork(forks1, sid.0@, seq, id.0@) {
                        assert(fork_matches(f2[f2.len() - 1], sid.0@, seq, id.0@));
                    }
                }
                let ghost ex_idx = choose|i: int|
                    0 <= i < entries0.len() && at_position(#[trigger] entries0[i], sid.0@, seq) && entries0[i].id == existing;
                proof {
                    assert(holds_stream(streams0, entries0[ex_idx].receipt.header.stream_id.0@));
                }
                let taken = self.take_stream(&sid);
                let ghost streams1 = self.streams@;
                let mut state = match taken {
                    Some(st) => st,
                    None => {
                        assert(false);
                        StreamState::for_stream(sid, receipt.header.author, now)
                    },
                };
                proof {
                    let k = choose|k: int| 0 <= k < streams0.len() && streams0[k] == state && state.stream_id.0@ == sid.0@
                        && streams1 == streams0.remove(k);
                    assert(state_consistent(streams0[k], entries0));
                }
                let mut conflicting: Vec<ReceiptId> = Vec::new();
                conflicting.push(existing);
                conflicting.push(id);
                state.mark_forked(seq, conflicting, now);
                self.streams.push(state);
                proof {
                    lemma_streams_after_reinsert(streams0, streams1, taken, state, sid.0@);
                    assert forall|k: int| 0 <= k < self.streams@.len() implies state_consistent(
                        #[trigger] self.streams@[k],
                        entries0,
                    ) by {
                        if k < streams1.len() {
                            let st = self.streams@[k];
                            assert(streams1[k] == st);
                            assert(streams0.contains(st));
                            let k0 = choose|k0: int| 0 <= k0 < streams0.len() && streams0[k0] == st;
                        }
                    }
                    assert forall|i: int| 0 <= i < entries0.len() implies holds_stream(
                        self.streams@,
                        (#[trigger] entries0[i]).receipt.header.stream_id.0@,
                    ) by {
                        let si = entries0[i].receipt.header.stream_id.0@;
                        if si == sid.0@ {
                            assert(self.streams@[streams1.len() as int] == state);
                        } else {
                            let k0 = choose|k0: int| 0 <= k0 < streams0.len() && (#[trigger] streams0[k0]).stream_id.0@ == si;
                            assert(streams1.contains(streams0[k0]));
                            let k1 = choose|k1: int| 0 <= k1 < streams1.len() && streams1[k1] == streams0[k0];
                            assert(self.streams@[k1] == streams1[k1]);
                        }
                    }
                    assert(self.streams@[streams1.len() as int] == state);
                    assert(state.health->Forked_receipts@[0] == existing);
                    assert(self.streams_view()[streams1.len() as int] == state);
                }
            },
            InsertResult::AlreadyExists => {},
        }
        res
    }
}

/// Taking a stream's state out and pushing a new state for that stream back
/// keeps one well-formed state per stream; the other states are untouched.
proof fn lemma_streams_after_reinsert(
    streams0: Seq<StreamState>,
    streams1: Seq<StreamState>,
    taken: Option<StreamState>,
    st: StreamState,
    sid: Seq<u8>,
)
    requires
        forall|i: int, j: int|
            0 <= i < j < streams0.len() ==> (#[trigger] streams0[i]).stream_id.0@ != (#[trigger] streams0[j]).stream_id.0@,
        forall|i: int| 0 <= i < streams0.len() ==> (#[trigger] streams0[i]).wf(),
        st.wf(),
        st.stream_id.0@ == sid,
        match taken {
            Some(t) => exists|k: int|
                0 <= k < streams0.len() && streams0[k] == t && t.stream_id.0@ == sid && streams1 == streams0.remove(k),
            None => !holds_stream(streams0, sid) && streams1 == streams0,
        },
    ensures
        forall|j: int| 0 <= j < streams1.len() ==> streams0.contains(#[trigger] streams1[j]) && streams1[j].stream_id.0@ != sid,
        forall|i: int, j: int|
            0 <= i < j < streams1.push(st).len() ==> (#[trigger] streams1.push(st)[i]).stream_id.0@ != (#[trigger] streams1.push(
                st,
            )[j]).stream_id.0@,
        forall|i: int| 0 <= i < streams1.push(st).len() ==> (#[trigger] streams1.push(st)[i]).wf(),
        forall|t: StreamState| streams0.contains(t) && t.stream_id.0@ != sid ==> streams1.contains(t),
{
    match taken {
        Some(t) => {
            let k = choose|k: int|
                0 <= k < streams0.len() && streams0[k] == t && t.stream_id.0@ == sid && streams1 == streams0.remove(k);
            assert forall|j: int| 0 <= j < streams1.len() implies streams0.contains(#[trigger] streams1[j])
                && streams1[j].stream_id.0@ != sid by {
                if j < k {
                    assert(streams1[j] == streams0[j]);
                } else {
                    assert(streams1[j] == streams0[j + 1]);
                }
            }
            assert forall|t2: StreamState| streams0.contains(t2) && t2.stream_id.0@ != sid implies streams1.contains(t2) by {
                let j = choose|j: int| 0 <= j < streams0.len() && streams0[j] == t2;
                if j < k {
                    assert(streams1[j] == t2);
                } else {
                    assert(j != k);
                    assert(streams1[j - 1] == t2);
                }
            }
            assert forall|i: int, j: int| 0 <= i < j < streams1.len() implies (#[trigger] streams1[i]).stream_id.0@
                != (#[trigger] streams1[j]).stream_id.0@ by {
                let i0 = if i < k { i } else { i + 1 };
                let j0 = if j < k { j } else { j + 1 };
                assert(streams1[i] == streams0[i0]);
                assert(streams1[j] == streams0[j0]);
            }
        },
        None => {
            assert forall|j: int| 0 <= j < streams1.len() implies streams0.contains(#[trigger] streams1[j])
                && streams1[j].stream_id.0@ != sid by {
                assert(streams0[j] == streams1[j]);
            }
        },
    }
    assert forall|i: int, j: int| 0 <= i < j < streams1.push(st).len() implies (#[trigger] streams1.push(st)[i]).stream_id.0@
        != (#[trigger] streams1.push(st)[j]).stream_id.0@ by {
        if j == streams1.len() {
            assert(streams1.contains(streams1[i]));
        } else {
            assert(streams1.push(st)[i] == streams1[i]);
            assert(streams1.push(st)[j] == streams1[j]);
        }
    }
    assert forall|i: int| 0 <= i < streams1.push(st).len() implies (#[trigger] streams1.push(st)[i]).wf() by {
        if i < streams1.len() {
            assert(streams1.push(st)[i] == streams1[i]);
            assert(streams0.contains(streams1[i]));
        }
    }
}

/// Inserting a receipt again after it went in (or was already there)
/// reports AlreadyExists and changes nothing.
pub proof fn lemma_insert_idempotent(
    s0: Seq<StoreEntry>,
    s1: Seq<StoreEntry>,
    s2: Seq<StoreEntry>,
    r: ReceiptModel,
    res1: InsertResult,
    res2: InsertResult,
)
    requires
        insert_relation(s0, s1, r, res1),
        !(res1 is Conflict),
        insert_relation(s1, s2, r, res2),
    ensures
        res2 == InsertResult::AlreadyExists,
        s2 == s1,
{
    if !holds_id(s0, spec_receipt_id(r)) {
        assert(s1[s1.len() - 1].id.0@ == spec_receipt_id(r));
    }
}

/// Of two distinct receipts for one fresh stream position, the first is
/// inserted and the second is refused as a conflict naming the first, with
/// nothing changed.
pub proof fn lemma_conflict_exclusive(
    s0: Seq<StoreEntry>,
    s1: Seq<StoreEntry>,
    s2: Seq<StoreEntry>,
    r1: ReceiptModel,
    r2: ReceiptModel,
    res1: InsertResult,
    res2: InsertResult,
)
    requires
        !holds_id(s0, spec_receipt_id(r1)),
        !holds_id(s0, spec_receipt_id(r2)),
        !holds_position(s0, r1.header.stream_id, r1.header.seq),
        r2.header.stream_id == r1.header.stream_id,
        r2.header.seq == r1.header.seq,
        spec_receipt_id(r2) != spec_receipt_id(r1),
        insert_relation(s0, s1, r1, res1),
        insert_relation(s1, s2, r2, res2),
    ensures
        res1 == InsertResult::Inserted,
        res2 matches InsertResult::Conflict { existing } && existing.0@ == spec_receipt_id(r1),
        s2 == s1,
{
    let n = s0.len() as int;
    assert(s1[n] == s1.last());
    assert(at_position(s1[n], r1.header.stream_id, r1.header.seq));
    assert forall|i: int| 0 <= i < s1.len() && (#[trigger] s1[i]).id.0@ == spec_receipt_id(r2) implies false by {
        if i < n {
            assert(s1.subrange(0, n)[i] == s1[i]);
            assert(s0[i] == s1[i]);
        }
    }
    let i = choose|i: int|
        0 <= i < s1.len() && at_position(#[trigger] s1[i], r2.header.stream_id, r2.header.seq) && s1[i].id
            == res2->Conflict_existing;
    if i < n {
        assert(s1.subrange(0, n)[i] == s1[i]);
        assert(s0[i] == s1[i]);
    }
}

/// In a consistent store, each stream's head is the largest `n` such that
/// every position `1..=n` holds a stored receipt and is not a gap; gaps are
/// distinct, lie strictly between the head and the highest known position,
/// and every position in between is stored or a gap.
pub proof fn lemma_head_is_longest_stored_prefix(store: MemoryStore, k: int)
    requires
        store.consistent(),
        0 <= k < store.streams_view().len(),
    ensures
        ({
            let st = store.streams_view()[k];
            let sid = st.stream_id.0@;
            let es = store.entries_view();
            &&& forall|i: u64| 1 <= i <= st.head_seq ==> #[trigger] holds_position(es, sid, i) && !st.gaps@.contains(i)
            &&& st.head_seq < u64::MAX ==> !(holds_position(es, sid, (st.head_seq + 1) as u64) && !st.gaps@.contains(
                (st.head_seq + 1) as u64,
            ))
            &&& forall|i: u64| st.head_seq < i <= st.known_max_seq ==> #[trigger] holds_position(es, sid, i) || st.gaps@.contains(i)
            &&& strictly_sorted(st.gaps@)
            &&& forall|j: int| 0 <= j < st.gaps@.len() ==> st.head_seq < #[trigger] st.gaps@[j] < st.known_max_seq
        }),
{
    let st = store.streams_view()[k];
    assert(state_consistent(st, store.entries_view()));
    assert(st.wf());
    assert forall|i: u64| 1 <= i <= st.head_seq implies !st.gaps@.contains(i) by {
        if st.gaps@.contains(i) {
            let j = choose|j: int| 0 <= j < st.gaps@.len() && st.gaps@[j] == i;
        }
    }
}

/// In a consistent store, a stream without a state has no stored receipts.
pub proof fn lemma_unknown_stream_is_empty(store: MemoryStore, sid: Seq<u8>, i: u64)
    requires
        store.consistent(),
        store.find_stream_spec(sid) is None,
    ensures
        !holds_position(store.entries_view(), sid, i),
{
    if holds_position(store.entries_view(), sid, i) {
        let j = choose|j: int| 0 <= j < store.entries_view().len() && at_position(#[trigger] store.entries_view()[j], sid, i);
        assert(holds_stream(store.streams_view(), store.entries_view()[j].receipt.header.stream_id.0@));
    }
}

/// In a consistent store, the position after a stream's head holds no receipt.
pub proof fn lemma_next_position_free(store: MemoryStore, sid: Seq<u8>)
    requires
        store.consistent(),
        store.find_stream_spec(sid) matches Some(st) && st.head_seq < u64::MAX,
    ensures
        store.find_stream_spec(sid) matches Some(st) && !holds_position(
            store.entries_view(),
            sid,
            (st.head_seq + 1) as u64,
        ),
{
    let k = choose|k: int| 0 <= k < store.streams_view().len() && (#[trigger] store.streams_view()[k]).stream_id.0@ == sid;
    assert(state_consistent(store.streams_view()[k], store.entries_view()));
}

} // verus!
