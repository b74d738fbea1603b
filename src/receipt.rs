//! Receipts: the signed, immutable unit of verifiable memory.
use vstd::prelude::*;
use crate::canonical::{canonical_bytes, signed_message_from_parts, spec_receipt_bytes, spec_signed_message};
use crate::crypto::{
    blake3_of, ed25519_accepts, ed25519_public_of, ed25519_signature_of, Blake3Hash, Ed25519PublicKey,
    Ed25519Signature, Keypair,
};
use crate::stream::StreamId;
use crate::validation::signature_valid;
use crate::types::ReceiptId;

verus! {

/// The current receipt schema version.
pub const RECEIPT_VERSION: u8 = 0;

/// Maximum number of refs in a receipt.
pub const MAX_REFS: usize = 16;

/// How a receipt's payload is interpreted.
#[derive(Debug, Clone, Copy, PartialEq, Eq, Structural, Hash)]
pub enum ReceiptKind {
    /// Generic application data.
    Data,
    /// Marks a previous receipt as superseded.
    Tombstone,
    /// First receipt of a stream.
    StreamInit,
    /// Permission grant.
    Grant,
    /// Permission revocation.
    Revoke,
    /// Encrypted key material for a recipient.
    KeyShare,
    /// Sync checkpoint.
    Anchor,
}

/// The stable wire value of each kind.
pub open spec fn kind_code(k: ReceiptKind) -> u16 {
    match k {
        ReceiptKind::Data => 0x0001,
        ReceiptKind::Tombstone => 0x0002,
        ReceiptKind::StreamInit => 0x0003,
        ReceiptKind::Grant => 0x0100,
        ReceiptKind::Revoke => 0x0101,
        ReceiptKind::KeyShare => 0x0102,
        ReceiptKind::Anchor => 0x0200,
    }
}

/// The category bits of a kind: its wire value masked to the high byte.
pub open spec fn kind_category(k: ReceiptKind) -> u16 {
    kind_code(k) & 0xFF00
}

impl ReceiptKind {
    /// The stable wire value.
    pub fn to_u16(self) -> (r: u16)
        ensures
            r == kind_code(self),
    {
        match self {
            ReceiptKind::Data => 0x0001,
            ReceiptKind::Tombstone => 0x0002,
            ReceiptKind::StreamInit => 0x0003,
            ReceiptKind::Grant => 0x0100,
            ReceiptKind::Revoke => 0x0101,
            ReceiptKind::KeyShare => 0x0102,
            ReceiptKind::Anchor => 0x0200,
        }
    }

    /// The kind with wire value `value`, if there is one.
    pub fn from_u16(value: u16) -> (r: Option<ReceiptKind>)
        ensures
            match r {
                Some(k) => kind_code(k) == value,
                None => forall|k: ReceiptKind| kind_code(k) != value,
            },
    {
        match value {
            0x0001 => Some(ReceiptKind::Data),
            0x0002 => Some(ReceiptKind::Tombstone),
            0x0003 => Some(ReceiptKind::StreamInit),
            0x0100 => Some(ReceiptKind::Grant),
            0x0101 => Some(ReceiptKind::Revoke),
            0x0102 => Some(ReceiptKind::KeyShare),
            0x0200 => Some(ReceiptKind::Anchor),
            _ => None,
        }
    }

    /// Whether this is a core kind (`0x00__`).
    pub fn is_core(self) -> (r: bool)
        ensures
            r == (kind_category(self) == 0x0000),
    {
        (self.to_u16() & 0xFF00) == 0x0000
    }

    /// Whether this is a permission kind (`0x01__`).
    pub fn is_permission(self) -> (r: bool)
        ensures
            r == (kind_category(self) == 0x0100),
    {
        (self.to_u16() & 0xFF00) == 0x0100
    }

    /// Whether this is a sync kind (`0x02__`).
    pub fn is_sync(self) -> (r: bool)
        ensures
            r == (kind_category(self) == 0x0200),
    {
        (self.to_u16() & 0xFF00) == 0x0200
    }
}

/// The mathematical content of a header: fixed-width ids as byte sequences.
pub struct HeaderModel {
    pub version: u8,
    pub author: Seq<u8>,
    pub stream_id: Seq<u8>,
    pub seq: u64,
    pub timestamp: i64,
    pub kind: ReceiptKind,
    pub prev_receipt_id: Option<Seq<u8>>,
    pub refs: Seq<Seq<u8>>,
    pub payload_hash: Seq<u8>,
}

/// The mathematical content of a receipt.
pub struct ReceiptModel {
    pub header: HeaderModel,
    pub payload: Seq<u8>,
    pub signature: Seq<u8>,
}

/// The byte sequence of an optional receipt id.
pub open spec fn opt_id_view(o: Option<ReceiptId>) -> Option<Seq<u8>> {
    match o {
        Some(id) => Some(id.0@),
        None => None,
    }
}

/// The byte sequences of a list of receipt ids.
pub open spec fn ids_view(ids: Seq<ReceiptId>) -> Seq<Seq<u8>> {
    ids.map_values(|id: ReceiptId| id.0@)
}

/// Whether a header model could come from a header value: every id is 32 bytes.
pub open spec fn header_model_wf(h: HeaderModel) -> bool {
    &&& h.author.len() == 32
    &&& h.stream_id.len() == 32
    &&& h.payload_hash.len() == 32
    &&& (h.prev_receipt_id matches Some(p) ==> p.len() == 32)
    &&& forall|i: int| 0 <= i < h.refs.len() ==> (#[trigger] h.refs[i]).len() == 32
    &&& h.refs.len() <= u64::MAX
}

/// Whether a receipt model could come from a receipt value.
pub open spec fn receipt_model_wf(r: ReceiptModel) -> bool {
    &&& header_model_wf(r.header)
    &&& r.signature.len() == 64
}

/// All metadata of a receipt.
#[derive(Debug, Clone)]
pub struct ReceiptHeader {
    /// Schema version (currently 0).
    pub version: u8,
    /// The author's public key.
    pub author: Ed25519PublicKey,
    /// The stream this receipt belongs to.
    pub stream_id: StreamId,
    /// 1-indexed position in the stream.
    pub seq: u64,
    /// Author-claimed time in Unix milliseconds; untrusted.
    pub timestamp: i64,
    /// How the payload is interpreted.
    pub kind: ReceiptKind,
    /// Id of the previous receipt of the stream; absent at seq 1.
    pub prev_receipt_id: Option<ReceiptId>,
    /// References to other receipts.
    pub refs: Vec<ReceiptId>,
    /// BLAKE3 hash of the payload.
    pub payload_hash: Blake3Hash,
}

impl View for ReceiptHeader {
    type V = HeaderModel;

    open spec fn view(&self) -> HeaderModel {
        HeaderModel {
            version: self.version,
            author: self.author.0@,
            stream_id: self.stream_id.0@,
            seq: self.seq,
            timestamp: self.timestamp,
            kind: self.kind,
            prev_receipt_id: opt_id_view(self.prev_receipt_id),
            refs: ids_view(self.refs@),
            payload_hash: self.payload_hash.0@,
        }
    }
}

/// A header together with its payload and the signature over both.
#[derive(Debug, Clone)]
pub struct Receipt {
    pub header: ReceiptHeader,
    /// The payload bytes (possibly an encrypted envelope).
    pub payload: Vec<u8>,
    /// Ed25519 signature over the canonical header followed by the payload.
    pub signature: Ed25519Signature,
}

impl View for Receipt {
    type V = ReceiptModel;

    open spec fn view(&self) -> ReceiptModel {
        ReceiptModel { header: self.header@, payload: self.payload@, signature: self.signature.0@ }
    }
}

impl ReceiptHeader {
    /// The header of the first receipt of a stream.
    pub fn new_stream_init(
        author: Ed25519PublicKey,
        stream_id: StreamId,
        timestamp: i64,
        payload_hash: Blake3Hash,
    ) -> (r: ReceiptHeader)
        ensures
            r@ == (HeaderModel {
                version: RECEIPT_VERSION,
                author: author.0@,
                stream_id: stream_id.0@,
                seq: 1,
                timestamp,
                kind: ReceiptKind::StreamInit,
                prev_receipt_id: None,
                refs: Seq::empty(),
                payload_hash: payload_hash.0@,
            }),
    {
        let r = ReceiptHeader {
            version: RECEIPT_VERSION,
            author,
            stream_id,
            seq: 1,
            timestamp,
            kind: ReceiptKind::StreamInit,
            prev_receipt_id: None,
            refs: Vec::new(),
            payload_hash,
        };
        assert(ids_view(r.refs@) =~= Seq::empty());
        r
    }

    /// The header of a data receipt that follows `prev_receipt_id`.
    pub fn new_data(
        author: Ed25519PublicKey,
        stream_id: StreamId,
        seq: u64,
        timestamp: i64,
        prev_receipt_id: ReceiptId,
        payload_hash: Blake3Hash,
    ) -> (r: ReceiptHeader)
        ensures
            r@ == (HeaderModel {
                version: RECEIPT_VERSION,
                author: author.0@,
                stream_id: stream_id.0@,
                seq,
                timestamp,
                kind: ReceiptKind::Data,
                prev_receipt_id: Some(prev_receipt_id.0@),
                refs: Seq::empty(),
                payload_hash: payload_hash.0@,
            }),
    {
        let r = ReceiptHeader {
            version: RECEIPT_VERSION,
            author,
            stream_id,
            seq,
            timestamp,
            kind: ReceiptKind::Data,
            prev_receipt_id: Some(prev_receipt_id),
            refs: Vec::new(),
            payload_hash,
        };
        assert(ids_view(r.refs@) =~= Seq::empty());
        r
    }

    /// The header of a tombstone for `tombstoned_receipt`; its payload is empty.
    pub fn new_tombstone(
        author: Ed25519PublicKey,
        stream_id: StreamId,
        seq: u64,
        timestamp: i64,
        prev_receipt_id: ReceiptId,
        tombstoned_receipt: ReceiptId,
    ) -> (r: ReceiptHeader)
        ensures
            r@ == (HeaderModel {
                version: RECEIPT_VERSION,
                author: author.0@,
                stream_id: stream_id.0@,
                seq,
                timestamp,
                kind: ReceiptKind::Tombstone,
                prev_receipt_id: Some(prev_receipt_id.0@),
                refs: seq![tombstoned_receipt.0@],
                payload_hash: blake3_of(Seq::empty()),
            }),
    {
        let empty: Vec<u8> = Vec::new();
        let mut refs: Vec<ReceiptId> = Vec::new();
        refs.push(tombstoned_receipt);
        let r = ReceiptHeader {
            version: RECEIPT_VERSION,
            author,
            stream_id,
            seq,
            timestamp,
            kind: ReceiptKind::Tombstone,
            prev_receipt_id: Some(prev_receipt_id),
            refs,
            payload_hash: Blake3Hash::hash(empty.as_slice()),
        };
        assert(ids_view(r.refs@) =~= seq![tombstoned_receipt.0@]);
        assert(empty@ =~= Seq::<u8>::empty());
        r
    }
}

/// The id of a receipt: the hash of its canonical bytes.
pub open spec fn spec_receipt_id(r: ReceiptModel) -> Seq<u8> {
    blake3_of(spec_receipt_bytes(r))
}

impl Receipt {
    /// The receipt id: BLAKE3 of the canonical bytes.
    pub fn compute_id(&self) -> (r: ReceiptId)
        ensures
            r.0@ == spec_receipt_id(self@),
    {
        let bytes = canonical_bytes(self);
        ReceiptId(Blake3Hash::hash(bytes.as_slice()).0)
    }

    pub fn author(&self) -> (r: &Ed25519PublicKey)
        ensures
            *r == self.header.author,
    {
        &self.header.author
    }

    pub fn stream_id(&self) -> (r: &StreamId)
        ensures
            *r == self.header.stream_id,
    {
        &self.header.stream_id
    }

    pub fn seq(&self) -> (r: u64)
        ensures
            r == self.header.seq,
    {
        self.header.seq
    }

    pub fn kind(&self) -> (r: ReceiptKind)
        ensures
            r == self.header.kind,
    {
        self.header.kind
    }

    /// Whether this is the first receipt of its stream.
    pub fn is_stream_init(&self) -> (r: bool)
        ensures
            r == (self.header.kind == ReceiptKind::StreamInit && self.header.seq == 1),
    {
        self.header.kind == ReceiptKind::StreamInit && self.header.seq == 1
    }

    pub fn is_tombstone(&self) -> (r: bool)
        ensures
            r == (self.header.kind == ReceiptKind::Tombstone),
    {
        self.header.kind == ReceiptKind::Tombstone
    }

    /// The receipt that a tombstone supersedes: its first ref.
    pub fn tombstoned_receipt(&self) -> (r: Option<&ReceiptId>)
        ensures
            r == (if self.header.kind == ReceiptKind::Tombstone && self.header.refs@.len() > 0 {
                Some(&self.header.refs@[0])
            } else {
                None
            }),
    {
        if self.is_tombstone() && self.header.refs.len() > 0 {
            Some(&self.header.refs[0])
        } else {
            None
        }
    }
}

/// Fluent construction of a signed receipt. The signature cannot be set
/// directly: `sign` computes it.
pub struct ReceiptBuilder {
    author: Ed25519PublicKey,
    stream_id: StreamId,
    seq: u64,
    timestamp: i64,
    kind: ReceiptKind,
    prev_receipt_id: Option<ReceiptId>,
    refs: Vec<ReceiptId>,
    payload: Vec<u8>,
}

impl ReceiptBuilder {
    /// The header that `sign` will produce, with its payload hash.
    pub closed spec fn header_view(&self) -> HeaderModel {
        HeaderModel {
            version: RECEIPT_VERSION,
            author: self.author.0@,
            stream_id: self.stream_id.0@,
            seq: self.seq,
            timestamp: self.timestamp,
            kind: self.kind,
            prev_receipt_id: opt_id_view(self.prev_receipt_id),
            refs: ids_view(self.refs@),
            payload_hash: blake3_of(self.payload@),
        }
    }

    /// The payload that `sign` will carry.
    pub closed spec fn payload_view(&self) -> Seq<u8> {
        self.payload@
    }

    /// Starts a Data receipt with timestamp 0, no predecessor, no refs and an empty payload.
    pub fn new(author: Ed25519PublicKey, stream_id: StreamId, seq: u64) -> (r: ReceiptBuilder)
        ensures
            r.header_view() == (HeaderModel {
                version: RECEIPT_VERSION,
                author: author.0@,
                stream_id: stream_id.0@,
                seq,
                timestamp: 0,
                kind: ReceiptKind::Data,
                prev_receipt_id: None,
                refs: Seq::empty(),
                payload_hash: blake3_of(Seq::empty()),
            }),
            r.payload_view() == Seq::<u8>::empty(),
    {
        let r = ReceiptBuilder {
            author,
            stream_id,
            seq,
            timestamp: 0,
            kind: ReceiptKind::Data,
            prev_receipt_id: None,
            refs: Vec::new(),
            payload: Vec::new(),
        };
        assert(ids_view(r.refs@) =~= Seq::empty());
        r
    }

    pub fn timestamp(self, ts: i64) -> (r: ReceiptBuilder)
        ensures
            r.header_view() == (HeaderModel { timestamp: ts, ..self.header_view() }),
            r.payload_view() == self.payload_view(),
    {
        ReceiptBuilder { timestamp: ts, ..self }
    }

    pub fn kind(self, kind: ReceiptKind) -> (r: ReceiptBuilder)
        ensures
            r.header_view() == (HeaderModel { kind, ..self.header_view() }),
            r.payload_view() == self.payload_view(),
    {
        ReceiptBuilder { kind, ..self }
    }

    pub fn prev(self, prev: ReceiptId) -> (r: ReceiptBuilder)
        ensures
            r.header_view() == (HeaderModel { prev_receipt_id: Some(prev.0@), ..self.header_view() }),
            r.payload_view() == self.payload_view(),
    {
        ReceiptBuilder { prev_receipt_id: Some(prev), ..self }
    }

    pub fn add_ref(self, r: ReceiptId) -> (out: ReceiptBuilder)
        ensures
            out.header_view() == (HeaderModel {
                refs: self.header_view().refs.push(r.0@),
                ..self.header_view()
            }),
            out.payload_view() == self.payload_view(),
    {
        let mut refs = self.refs;
        let ghost old_refs = refs@;
        refs.push(r);
        assert(ids_view(refs@) =~= ids_view(old_refs).push(r.0@));
        ReceiptBuilder { refs, ..self }
    }

    pub fn payload(self, p: Vec<u8>) -> (r: ReceiptBuilder)
        ensures
            r.header_view() == (HeaderModel { payload_hash: blake3_of(p@), ..self.header_view() }),
            r.payload_view() == p@,
    {
        ReceiptBuilder { payload: p, ..self }
    }

    /// Sets version and payload hash, signs the canonical header and payload
    /// with `keypair`, and returns the receipt.
    pub fn sign(self, keypair: &Keypair) -> (r: Receipt)
        ensures
            r.header@ == self.header_view(),
            r.payload@ == self.payload_view(),
            r.signature.0@ == ed25519_signature_of(
                keypair.seed_view(),
                spec_signed_message(self.header_view(), self.payload_view()),
            ),
            ed25519_accepts(
                ed25519_public_of(keypair.seed_view()),
                spec_signed_message(r.header@, r.payload@),
                r.signature.0@,
            ),
            self.header_view().author == ed25519_public_of(keypair.seed_view()) ==> signature_valid(r@),
    {
        let payload_hash = Blake3Hash::hash(self.payload.as_slice());
        let header = ReceiptHeader {
            version: RECEIPT_VERSION,
            author: self.author,
            stream_id: self.stream_id,
            seq: self.seq,
            timestamp: self.timestamp,
            kind: self.kind,
            prev_receipt_id: self.prev_receipt_id,
            refs: self.refs,
            payload_hash,
        };
        let message = signed_message_from_parts(&header, self.payload.as_slice());
        let signature = keypair.sign(message.as_slice());
        Receipt { header, payload: self.payload, signature }
    }
}

} // verus!
