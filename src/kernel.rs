//! The kernel: one author's keypair over a store, with the local write path
//! (create, append, tombstone) and the ingest path for receipts from elsewhere.
use vstd::prelude::*;
use vstd::string::StringSliceAdditionalSpecFns;
use crate::canonical::canonical_bytes;
use crate::canonical::spec_signed_message;
use crate::crypto::{blake3_of, ed25519_public_of, ed25519_signature_of, Ed25519PublicKey, Keypair};
use crate::permissions::PermissionState;
use crate::receipt::{
    spec_receipt_id, HeaderModel, Receipt, ReceiptBuilder, ReceiptKind, ReceiptModel, RECEIPT_VERSION,
};
use crate::store::{
    has_fork, holds_id, holds_position, insert_relation, lemma_next_position_free, lemma_unknown_stream_is_empty,
    InsertResult, MemoryStore,
};
use crate::stream::{stream_id_of, StreamId, StreamState};
use crate::types::ReceiptId;
use crate::validation::{signature_valid, structurally_valid, validate_receipt, ValidationError};

verus! {

/// Kernel settings.
#[derive(Debug, Clone, Copy)]
pub struct KernelConfig {
    /// Whether receipts from elsewhere are validated before they are stored.
    pub validate_on_ingest: bool,
}

impl KernelConfig {
    /// Validation on.
    pub fn default() -> (r: KernelConfig)
        ensures
            r.validate_on_ingest,
    {
        KernelConfig { validate_on_ingest: true }
    }
}

/// Errors of the kernel.
#[derive(Debug, Clone, PartialEq, Eq)]
pub enum KernelError {
    Validation(ValidationError),
    StreamExists(StreamId),
    StreamNotFound(StreamId),
    Conflict { stream_id: StreamId, seq: u64, existing: ReceiptId },
}

/// What ingesting a receipt did.
#[derive(Debug, Clone, Copy, PartialEq, Eq)]
pub enum IngestResult {
    /// Newly stored, under this id.
    Accepted(ReceiptId),
    /// Already stored.
    Duplicate,
    /// Another receipt holds its position; the stream is marked forked.
    Conflict { existing: ReceiptId },
}

/// The receipt the kernel with signing seed `seed` builds: version 0, its
/// own key as author, the payload hash, and its signature over the header
/// and payload.
pub open spec fn built_receipt(
    seed: Seq<u8>,
    sid: Seq<u8>,
    seq: u64,
    timestamp: i64,
    kind: ReceiptKind,
    prev: Option<Seq<u8>>,
    refs: Seq<Seq<u8>>,
    payload: Seq<u8>,
) -> ReceiptModel {
    let h = HeaderModel {
        version: RECEIPT_VERSION,
        author: ed25519_public_of(seed),
        stream_id: sid,
        seq,
        timestamp,
        kind,
        prev_receipt_id: prev,
        refs,
        payload_hash: blake3_of(payload),
    };
    ReceiptModel { header: h, payload, signature: ed25519_signature_of(seed, spec_signed_message(h, payload)) }
}

/// Stream `sid` is marked forked at `seq` with the ids `[existing, new]`,
/// and both are recorded as fork evidence.
pub open spec fn forked_with(store: MemoryStore, sid: Seq<u8>, seq: u64, existing: ReceiptId, new: Seq<u8>) -> bool {
    &&& exists|k: int|
        0 <= k < store.streams_view().len() && (#[trigger] store.streams_view()[k]).stream_id.0@ == sid
            && store.streams_view()[k].health is Forked && store.streams_view()[k].health->Forked_at_seq == seq
            && store.streams_view()[k].health->Forked_receipts@.len() == 2
            && store.streams_view()[k].health->Forked_receipts@[0] == existing
            && store.streams_view()[k].health->Forked_receipts@[1].0@ == new
    &&& has_fork(store.forks_view(), sid, seq, existing.0@)
    &&& has_fork(store.forks_view(), sid, seq, new)
}

/// How an insert outcome is reported by `ingest`.
pub open spec fn ingest_outcome(ins: InsertResult, res: IngestResult, r: crate::receipt::ReceiptModel) -> bool {
    match ins {
        InsertResult::Inserted => res matches IngestResult::Accepted(id) && id.0@ == spec_receipt_id(r),
        InsertResult::AlreadyExists => res == IngestResult::Duplicate,
        InsertResult::Conflict { existing } => res == (IngestResult::Conflict { existing }),
    }
}

/// One author's kernel.
pub struct Kernel {
    keypair: Keypair,
    store: MemoryStore,
    permissions: PermissionState,
    config: KernelConfig,
}

impl Kernel {
    pub closed spec fn store_view(&self) -> MemoryStore {
        self.store
    }

    pub closed spec fn config_view(&self) -> KernelConfig {
        self.config
    }

    pub closed spec fn seed_view(&self) -> Seq<u8> {
        self.keypair.seed_view()
    }

    /// The kernel invariant: the store is consistent.
    pub open spec fn wf(&self) -> bool {
        self.store_view().consistent()
    }

    /// A kernel over an empty store.
    pub fn new(keypair: Keypair, config: KernelConfig) -> (r: Kernel)
        ensures
            r.wf(),
            r.seed_view() == keypair.seed_view(),
            r.config_view() == config,
            r.store_view().entries_view().len() == 0,
    {
        Kernel { keypair, store: MemoryStore::new(), permissions: PermissionState::new(), config }
    }

    /// The author key.
    pub fn public_key(&self) -> (r: Ed25519PublicKey)
        ensures
            r.0@ == ed25519_public_of(self.seed_view()),
    {
        self.keypair.public_key()
    }

    /// The store.
    pub fn store(&self) -> (r: &MemoryStore)
        ensures
            *r == self.store_view(),
    {
        &self.store
    }

    pub closed spec fn permissions_view(&self) -> PermissionState {
        self.permissions
    }

    /// The permission state.
    pub fn permissions(&self) -> (r: &PermissionState)
        ensures
            *r == self.permissions_view(),
    {
        &self.permissions
    }

    /// The state of `stream_id`.
    pub fn stream_state(&self, stream_id: &StreamId) -> (r: Option<&StreamState>)
        requires
            self.wf(),
        ensures
            r matches Some(st) ==> self.store_view().find_stream_spec(stream_id.0@) == Some(*st),
            r is None ==> self.store_view().find_stream_spec(stream_id.0@) is None,
    {
        self.store.get_stream_state(stream_id)
    }

    /// Stores a locally built receipt; a conflict is an error.
    fn ingest_local(&mut self, receipt: &Receipt, now: i64) -> (r: Result<ReceiptId, KernelError>)
        requires
            old(self).wf(),
        ensures
            final(self).wf(),
            final(self).seed_view() == old(self).seed_view(),
            r matches Ok(id) ==> id.0@ == spec_receipt_id(receipt@) && holds_id(
                final(self).store_view().entries_view(),
                id.0@,
            ),
            r matches Err(e) ==> e is Conflict,
            !holds_position(old(self).store_view().entries_view(), receipt.header.stream_id.0@, receipt.header.seq)
                ==> r is Ok,
    {
        let bytes = canonical_bytes(receipt);
        let id = receipt.compute_id();
        match self.store.insert_and_update_stream(receipt, bytes.as_slice(), now) {
            InsertResult::Inserted => {
                assert(self.store.entries_view()[self.store.entries_view().len() - 1].id.0@ == id.0@);
                Ok(id)
            },
            InsertResult::AlreadyExists => Ok(id),
            InsertResult::Conflict { existing } => Err(
                KernelError::Conflict { stream_id: receipt.header.stream_id, seq: receipt.header.seq, existing },
            ),
        }
    }

    /// Starts the stream `name` with a StreamInit receipt carrying `payload`,
    /// timestamped `now`. A stream that already has a head cannot be started again.
    pub fn create_stream(&mut self, name: &str, payload: Vec<u8>, now: i64) -> (r: Result<
        (StreamId, ReceiptId),
        KernelError,
    >)
        requires
            old(self).wf(),
        ensures
            final(self).wf(),
            final(self).seed_view() == old(self).seed_view(),
            old(self).store_view().find_stream_spec(
                stream_id_of(ed25519_public_of(old(self).seed_view()), name.spec_bytes()),
            ) is None ==> r is Ok,
            r matches Ok((sid, id)) ==> sid.0@ == stream_id_of(ed25519_public_of(old(self).seed_view()), name.spec_bytes())
                && holds_id(final(self).store_view().entries_view(), id.0@) && id.0@ == spec_receipt_id(
                built_receipt(old(self).seed_view(), sid.0@, 1, now, ReceiptKind::StreamInit, None, Seq::empty(), payload@),
            ),
            r matches Err(KernelError::StreamExists(sid)) ==> old(self).store_view().find_stream_spec(sid.0@) matches Some(
                st,
            ) && st.head_seq > 0,
    {
        let author = self.keypair.public_key();
        let stream_id = StreamId::derive(&author, name);
        match self.store.get_stream_state(&stream_id) {
            Some(st) => {
                if st.head_seq > 0 {
                    return Err(KernelError::StreamExists(stream_id));
                }
            },
            None => {},
        }
        let ghost pv = payload@;
        let receipt = ReceiptBuilder::new(author, stream_id, 1).kind(ReceiptKind::StreamInit).timestamp(now).payload(
            payload,
        ).sign(&self.keypair);
        proof {
            assert(receipt@ =~= built_receipt(
                self.seed_view(),
                stream_id.0@,
                1,
                now,
                ReceiptKind::StreamInit,
                None,
                Seq::empty(),
                pv,
            ));
            if self.store_view().find_stream_spec(stream_id.0@) is None {
                lemma_unknown_stream_is_empty(self.store_view(), stream_id.0@, 1);
            }
        }
        match self.ingest_local(&receipt, now) {
            Ok(id) => Ok((stream_id, id)),
            Err(e) => Err(e),
        }
    }

    /// The head position and id of `stream_id`, for extending it.
    fn head_of(&self, stream_id: &StreamId) -> (r: Result<(u64, ReceiptId), KernelError>)
        requires
            self.wf(),
        ensures
            r matches Ok((seq, id)) ==> self.store_view().find_stream_spec(stream_id.0@) matches Some(st)
                && st.head_seq == seq && st.head_receipt_id == Some(id) && seq < u64::MAX,
            self.store_view().find_stream_spec(stream_id.0@) is None ==> r == Err::<(u64, ReceiptId), KernelError>(
                KernelError::StreamNotFound(*stream_id),
            ),
            ({
                let st = self.store_view().find_stream_spec(stream_id.0@);
                st is Some && st->Some_0.head_receipt_id is Some && st->Some_0.head_seq < u64::MAX ==> r is Ok
            }),
    {
        match self.store.get_stream_state(stream_id) {
            Some(st) => match st.head_receipt_id {
                Some(h) => {
                    if st.head_seq == u64::MAX {
                        return Err(KernelError::StreamNotFound(*stream_id));
                    }
                    Ok((st.head_seq, h))
                },
                None => Err(KernelError::StreamNotFound(*stream_id)),
            },
            None => Err(KernelError::StreamNotFound(*stream_id)),
        }
    }

    /// Appends a receipt of `kind` with `payload` after the stream's head.
    pub fn append(&mut self, stream_id: &StreamId, kind: ReceiptKind, payload: Vec<u8>, now: i64) -> (r: Result<
        ReceiptId,
        KernelError,
    >)
        requires
            old(self).wf(),
        ensures
            final(self).wf(),
            final(self).seed_view() == old(self).seed_view(),
            ({
                let st = old(self).store_view().find_stream_spec(stream_id.0@);
                st is Some && st->Some_0.head_receipt_id is Some && st->Some_0.head_seq < u64::MAX ==> r is Ok && r->Ok_0.0@
                    == spec_receipt_id(
                    built_receipt(
                        old(self).seed_view(),
                        stream_id.0@,
                        (st->Some_0.head_seq + 1) as u64,
                        now,
                        kind,
                        Some(st->Some_0.head_receipt_id->Some_0.0@),
                        Seq::empty(),
                        payload@,
                    ),
                )
            }),
            r matches Ok(id) ==> holds_id(final(self).store_view().entries_view(), id.0@),
            old(self).store_view().find_stream_spec(stream_id.0@) is None ==> r == Err::<ReceiptId, KernelError>(
                KernelError::StreamNotFound(*stream_id),
            ),
    {
        let (head_seq, prev) = match self.head_of(stream_id) {
            Ok(h) => h,
            Err(e) => return Err(e),
        };
        let ghost pv = payload@;
        let receipt = ReceiptBuilder::new(self.keypair.public_key(), *stream_id, head_seq + 1).kind(kind).timestamp(
            now,
        ).prev(prev).payload(payload).sign(&self.keypair);
        proof {
            assert(receipt@ =~= built_receipt(
                self.seed_view(),
                stream_id.0@,
                (head_seq + 1) as u64,
                now,
                kind,
                Some(prev.0@),
                Seq::empty(),
                pv,
            ));
            lemma_next_position_free(self.store_view(), stream_id.0@);
        }
        self.ingest_local(&receipt, now)
    }

    /// Appends a tombstone for `target_receipt_id` after the stream's head.
    pub fn tombstone(&mut self, stream_id: &StreamId, target_receipt_id: ReceiptId, now: i64) -> (r: Result<
        ReceiptId,
        KernelError,
    >)
        requires
            old(self).wf(),
        ensures
            final(self).wf(),
            final(self).seed_view() == old(self).seed_view(),
            ({
                let st = old(self).store_view().find_stream_spec(stream_id.0@);
                st is Some && st->Some_0.head_receipt_id is Some && st->Some_0.head_seq < u64::MAX ==> r is Ok && r->Ok_0.0@
                    == spec_receipt_id(
                    built_receipt(
                        old(self).seed_view(),
                        stream_id.0@,
                        (st->Some_0.head_seq + 1) as u64,
                        now,
                        ReceiptKind::Tombstone,
                        Some(st->Some_0.head_receipt_id->Some_0.0@),
                        seq![target_receipt_id.0@],
                        Seq::empty(),
                    ),
                )
            }),
            r matches Ok(id) ==> holds_id(final(self).store_view().entries_view(), id.0@),
            old(self).store_view().find_stream_spec(stream_id.0@) is None ==> r == Err::<ReceiptId, KernelError>(
                KernelError::StreamNotFound(*stream_id),
            ),
    {
        let (head_seq, prev) = match self.head_of(stream_id) {
            Ok(h) => h,
            Err(e) => return Err(e),
        };
        let empty: Vec<u8> = Vec::new();
        let ghost pv = empty@;
        let receipt = ReceiptBuilder::new(self.keypair.public_key(), *stream_id, head_seq + 1).kind(
            ReceiptKind::Tombstone,
        ).timestamp(now).prev(prev).add_ref(target_receipt_id).payload(empty).sign(&self.keypair);
        proof {
            assert(pv =~= Seq::<u8>::empty());
            assert(Seq::<Seq<u8>>::empty().push(target_receipt_id.0@) =~= seq![target_receipt_id.0@]);
            assert(receipt@ =~= built_receipt(
                self.seed_view(),
                stream_id.0@,
                (head_seq + 1) as u64,
                now,
                ReceiptKind::Tombstone,
                Some(prev.0@),
                seq![target_receipt_id.0@],
                Seq::empty(),
            ));
            lemma_next_position_free(self.store_view(), stream_id.0@);
        }
        self.ingest_local(&receipt, now)
    }

    /// Ingests a receipt from elsewhere: validation (when configured), then
    /// the store's idempotent insert and stream update.
    pub fn ingest(&mut self, receipt: &Receipt, now: i64) -> (r: Result<IngestResult, KernelError>)
        requires
            old(self).wf(),
        ensures
            final(self).wf(),
            r is Err <==> old(self).config_view().validate_on_ingest && !(structurally_valid(receipt@)
                && signature_valid(receipt@)),
            r is Err ==> final(self).store_view() == old(self).store_view(),
            r matches Ok(res) ==> exists|ins: InsertResult|
                insert_relation(
                    old(self).store_view().entries_view(),
                    final(self).store_view().entries_view(),
                    receipt@,
                    ins,
                ) && ingest_outcome(ins, res, receipt@),
            r matches Ok(IngestResult::Conflict { existing }) ==> forked_with(
                final(self).store_view(),
                receipt.header.stream_id.0@,
                receipt.header.seq,
                existing,
                spec_receipt_id(receipt@),
            ),
    {
        if self.config.validate_on_ingest {
            match validate_receipt(receipt) {
                Ok(()) => {},
                Err(e) => return Err(KernelError::Validation(e)),
            }
        }
        let bytes = canonical_bytes(receipt);
        let id = receipt.compute_id();
        let ghost before = self.store.entries_view();
        let ins = self.store.insert_and_update_stream(receipt, bytes.as_slice(), now);
        let out = match ins {
            InsertResult::Inserted => IngestResult::Accepted(id),
            InsertResult::AlreadyExists => IngestResult::Duplicate,
            InsertResult::Conflict { existing } => IngestResult::Conflict { existing },
        };
        assert(insert_relation(before, self.store.entries_view(), receipt@, ins));
        assert(ingest_outcome(ins, out, receipt@));
        Ok(out)
    }
}

} // verus!
