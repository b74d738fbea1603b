//! Permission state: a fold of Grant and Revoke receipts.
use vstd::prelude::*;
use crate::crypto::Ed25519PublicKey;
use crate::grant::{
    conditions_hold, scope_reads_receipt_only, scope_reads_stream, scope_writes_stream, Conditions,
    GrantPayload, PermissionScope, RevokePayload,
};
use crate::agreement::PermsError;
use crate::receipt::{spec_receipt_id, Receipt, ReceiptKind};
use crate::stream::StreamId;
use crate::types::ReceiptId;

verus! {

/// The state of one grant.
#[derive(Debug, Clone, Copy)]
pub struct GrantState {
    /// The Grant receipt's id.
    pub grant_receipt_id: ReceiptId,
    /// Who granted.
    pub grantor: Ed25519PublicKey,
    /// Who received.
    pub recipient: Ed25519PublicKey,
    pub scope: PermissionScope,
    /// Position of the Grant receipt in the permissions stream.
    pub granted_at_seq: u64,
    pub conditions: Option<Conditions>,
    pub revoked: bool,
    pub revoked_at_seq: Option<u64>,
    pub revoke_receipt_id: Option<ReceiptId>,
    /// Number of recorded uses.
    pub use_count: u32,
}

/// A grant is in force at `now`: not revoked, and its conditions hold.
pub open spec fn grant_valid(g: GrantState, now: i64) -> bool {
    &&& !g.revoked
    &&& (g.conditions matches Some(c) ==> conditions_hold(c, now, g.use_count))
}

impl GrantState {
    /// Whether the grant is in force at `now`.
    pub fn is_valid(&self, now: i64) -> (r: bool)
        ensures
            r == grant_valid(*self, now),
    {
        if self.revoked {
            return false;
        }
        if let Some(conditions) = &self.conditions {
            if !conditions.is_valid(now, self.use_count) {
                return false;
            }
        }
        true
    }

    /// Counts one use.
    pub fn record_use(&mut self)
        requires
            old(self).use_count < u32::MAX,
        ensures
            *final(self) == (GrantState { use_count: (old(self).use_count + 1) as u32, ..*old(self) }),
    {
        self.use_count = self.use_count + 1;
    }
}

/// The permission state built by replaying a permissions stream.
#[derive(Debug, Clone)]
pub struct PermissionState {
    grants: Vec<GrantState>,
}

impl PermissionState {
    /// The grants, in the order their receipts were applied.
    pub closed spec fn grants_view(&self) -> Seq<GrantState> {
        self.grants@
    }

    /// Grant ids are unique.
    pub open spec fn wf(&self) -> bool {
        forall|i: int, j: int|
            0 <= i < j < self.grants_view().len() ==> (#[trigger] self.grants_view()[i]).grant_receipt_id.0@
                != (#[trigger] self.grants_view()[j]).grant_receipt_id.0@
    }

    /// Whether a grant with id `id` is known.
    pub open spec fn has_grant(&self, id: Seq<u8>) -> bool {
        exists|i: int| 0 <= i < self.grants_view().len() && (#[trigger] self.grants_view()[i]).grant_receipt_id.0@ == id
    }

    /// `principal` may read stream `sid` at `now`.
    pub open spec fn spec_can_read_stream(&self, principal: Seq<u8>, sid: Seq<u8>, now: i64) -> bool {
        exists|i: int|
            0 <= i < self.grants_view().len() && #[trigger] grant_reads_stream(self.grants_view()[i], principal, sid, now)
    }

    /// `principal` may read receipt `rid` of stream `sid` at `now`.
    pub open spec fn spec_can_read_receipt(&self, principal: Seq<u8>, rid: Seq<u8>, sid: Seq<u8>, now: i64) -> bool {
        self.spec_can_read_stream(principal, sid, now) || exists|i: int|
            0 <= i < self.grants_view().len() && #[trigger] grant_reads_receipt(self.grants_view()[i], principal, rid, now)
    }

    /// `principal` may write stream `sid` at `now`.
    pub open spec fn spec_can_write_stream(&self, principal: Seq<u8>, sid: Seq<u8>, now: i64) -> bool {
        exists|i: int|
            0 <= i < self.grants_view().len() && #[trigger] grant_writes_stream(self.grants_view()[i], principal, sid, now)
    }

    /// An empty state.
    pub fn new() -> (r: PermissionState)
        ensures
            r.wf(),
            r.grants_view().len() == 0,
    {
        PermissionState { grants: Vec::new() }
    }

    /// Index of the grant with id `id`, if any.
    fn find(&self, id: &ReceiptId) -> (r: Option<usize>)
        ensures
            match r {
                Some(i) => i < self.grants_view().len() && self.grants_view()[i as int].grant_receipt_id.0@ == id.0@,
                None => !self.has_grant(id.0@),
            },
    {
        let mut i: usize = 0;
        while i < self.grants.len()
            invariant
                0 <= i <= self.grants@.len(),
                forall|j: int| 0 <= j < i ==> self.grants@[j].grant_receipt_id.0@ != id.0@,
            decreases self.grants@.len() - i,
        {
            if self.grants[i].grant_receipt_id == *id {
                return Some(i);
            }
            i = i + 1;
        }
        None
    }

    /// Applies a Grant receipt: records a new, unrevoked, unused grant. A
    /// grant id that is already known leaves the state as it is.
    pub fn apply_grant(&mut self, receipt_id: ReceiptId, grantor: Ed25519PublicKey, seq: u64, payload: GrantPayload)
        requires
            old(self).wf(),
        ensures
            keeps_revocations(old(self).grants_view(), final(self).grants_view()),
            final(self).wf(),
            old(self).has_grant(receipt_id.0@) ==> final(self).grants_view() == old(self).grants_view(),
            !old(self).has_grant(receipt_id.0@) ==> final(self).grants_view() == old(self).grants_view().push(
                GrantState {
                    grant_receipt_id: receipt_id,
                    grantor,
                    recipient: payload.recipient,
                    scope: payload.scope,
                    granted_at_seq: seq,
                    conditions: payload.conditions,
                    revoked: false,
                    revoked_at_seq: None,
                    revoke_receipt_id: None,
                    use_count: 0,
                },
            ),
    {
        if self.find(&receipt_id).is_some() {
            return;
        }
        let grant = GrantState {
            grant_receipt_id: receipt_id,
            grantor,
            recipient: payload.recipient,
            scope: payload.scope,
            granted_at_seq: seq,
            conditions: payload.conditions,
            revoked: false,
            revoked_at_seq: None,
            revoke_receipt_id: None,
            use_count: 0,
        };
        self.grants.push(grant);
    }

    /// Applies a Revoke receipt: marks the referenced grant revoked at `seq`
    /// by `revoke_receipt_id`; an unknown grant id changes nothing.
    pub fn apply_revoke(&mut self, revoke_receipt_id: ReceiptId, seq: u64, payload: RevokePayload)
        requires
            old(self).wf(),
        ensures
            keeps_revocations(old(self).grants_view(), final(self).grants_view()),
            final(self).wf(),
            final(self).grants_view().len() == old(self).grants_view().len(),
            forall|i: int|
                0 <= i < old(self).grants_view().len() ==> (#[trigger] final(self).grants_view()[i]) == if old(
                    self,
                ).grants_view()[i].grant_receipt_id.0@ == payload.grant_receipt_id.0@ {
                    GrantState {
                        revoked: true,
                        revoked_at_seq: Some(seq),
                        revoke_receipt_id: Some(revoke_receipt_id),
                        ..old(self).grants_view()[i]
                    }
                } else {
                    old(self).grants_view()[i]
                },
    {
        match self.find(&payload.grant_receipt_id) {
            Some(i) => {
                let mut g = self.grants[i];
                g.revoked = true;
                g.revoked_at_seq = Some(seq);
                g.revoke_receipt_id = Some(revoke_receipt_id);
                self.grants.set(i, g);
            },
            None => {},
        }
    }

    /// Records one use of the grant `grant_id`; false when no such grant is
    /// known or its use count is at the maximum.
    pub fn record_use(&mut self, grant_id: &ReceiptId) -> (r: bool)
        requires
            old(self).wf(),
        ensures
            keeps_revocations(old(self).grants_view(), final(self).grants_view()),
            final(self).wf(),
            final(self).grants_view().len() == old(self).grants_view().len(),
            r <==> exists|i: int|
                0 <= i < old(self).grants_view().len() && (#[trigger] old(self).grants_view()[i]).grant_receipt_id.0@
                    == grant_id.0@ && old(self).grants_view()[i].use_count < u32::MAX,
            forall|i: int|
                0 <= i < old(self).grants_view().len() ==> (#[trigger] final(self).grants_view()[i]) == if r
                    && old(self).grants_view()[i].grant_receipt_id.0@ == grant_id.0@ {
                    GrantState { use_count: (old(self).grants_view()[i].use_count + 1) as u32, ..old(self).grants_view()[i] }
                } else {
                    old(self).grants_view()[i]
                },
    {
        match self.find(grant_id) {
            Some(i) => {
                let mut g = self.grants[i];
                if g.use_count == u32::MAX {
                    return false;
                }
                g.record_use();
                self.grants.set(i, g);
                true
            },
            None => false,
        }
    }

    /// Whether `principal` may read `stream_id` at `now`: some grant in force
    /// for it with scope ReadStream or Admin on that stream.
    pub fn can_read_stream(&self, principal: &Ed25519PublicKey, stream_id: &StreamId, now: i64) -> (r: bool)
        ensures
            r == self.spec_can_read_stream(principal.0@, stream_id.0@, now),
    {
        let mut i: usize = 0;
        while i < self.grants.len()
            invariant
                0 <= i <= self.grants@.len(),
                forall|j: int| 0 <= j < i ==> !grant_reads_stream(#[trigger] self.grants@[j], principal.0@, stream_id.0@, now),
            decreases self.grants@.len() - i,
        {
            let g = &self.grants[i];
            if g.recipient == *principal && g.scope.can_read_stream(stream_id) && g.is_valid(now) {
                assert(grant_reads_stream(self.grants_view()[i as int], principal.0@, stream_id.0@, now));
                return true;
            }
            i = i + 1;
        }
        false
    }

    /// Whether `principal` may read `receipt_id` of `stream_id` at `now`:
    /// stream-level read access, or a grant in force for that receipt.
    pub fn can_read_receipt(
        &self,
        principal: &Ed25519PublicKey,
        receipt_id: &ReceiptId,
        stream_id: &StreamId,
        now: i64,
    ) -> (r: bool)
        ensures
            r == self.spec_can_read_receipt(principal.0@, receipt_id.0@, stream_id.0@, now),
    {
        if self.can_read_stream(principal, stream_id, now) {
            return true;
        }
        let mut i: usize = 0;
        while i < self.grants.len()
            invariant
                0 <= i <= self.grants@.len(),
                forall|j: int| 0 <= j < i ==> !grant_reads_receipt(#[trigger] self.grants@[j], principal.0@, receipt_id.0@, now),
            decreases self.grants@.len() - i,
        {
            let g = &self.grants[i];
            if g.recipient == *principal && g.scope.can_read_receipt(receipt_id, stream_id) && g.is_valid(now) {
                proof {
                    if !scope_reads_receipt_only(g.scope, receipt_id.0@) {
                        assert(grant_reads_stream(self.grants_view()[i as int], principal.0@, stream_id.0@, now));
                    } else {
                        assert(grant_reads_receipt(self.grants_view()[i as int], principal.0@, receipt_id.0@, now));
                    }
                }
                return true;
            }
            i = i + 1;
        }
        false
    }

    /// Whether `principal` may write `stream_id` at `now`: some grant in
    /// force with scope WriteStream or Admin on that stream.
    pub fn can_write_stream(&self, principal: &Ed25519PublicKey, stream_id: &StreamId, now: i64) -> (r: bool)
        ensures
            r == self.spec_can_write_stream(principal.0@, stream_id.0@, now),
    {
        let mut i: usize = 0;
        while i < self.grants.len()
            invariant
                0 <= i <= self.grants@.len(),
                forall|j: int| 0 <= j < i ==> !grant_writes_stream(#[trigger] self.grants@[j], principal.0@, stream_id.0@, now),
            decreases self.grants@.len() - i,
        {
            let g = &self.grants[i];
            if g.recipient == *principal && g.scope.can_write_stream(stream_id) && g.is_valid(now) {
                assert(grant_writes_stream(self.grants_view()[i as int], principal.0@, stream_id.0@, now));
                return true;
            }
            i = i + 1;
        }
        false
    }

    /// The grant with id `grant_id`.
    pub fn get_grant(&self, grant_id: &ReceiptId) -> (r: Option<GrantState>)
        ensures
            match r {
                Some(g) => g.grant_receipt_id.0@ == grant_id.0@ && self.grants_view().contains(g),
                None => !self.has_grant(grant_id.0@),
            },
    {
        match self.find(grant_id) {
            Some(i) => Some(self.grants[i]),
            None => None,
        }
    }

    /// All grants to `recipient`, in the order applied.
    pub fn grants_for(&self, recipient: &Ed25519PublicKey) -> (r: Vec<GrantState>)
        ensures
            r@ == self.grants_view().filter(|g: GrantState| g.recipient.0@ == recipient.0@),
    {
        let mut out: Vec<GrantState> = Vec::new();
        let mut i: usize = 0;
        while i < self.grants.len()
            invariant
                0 <= i <= self.grants@.len(),
                out@ == self.grants@.subrange(0, i as int).filter(|g: GrantState| g.recipient.0@ == recipient.0@),
            decreases self.grants@.len() - i,
        {
            let g = self.grants[i];
            proof {
                reveal(Seq::filter);
                assert(self.grants@.subrange(0, i + 1).drop_last() =~= self.grants@.subrange(0, i as int));
            }
            if g.recipient == *recipient {
                out.push(g);
            }
            i = i + 1;
        }
        assert(self.grants@.subrange(0, self.grants@.len() as int) =~= self.grants@);
        out
    }

    /// The grants to `recipient` that are in force at `now`, in the order applied.
    pub fn valid_grants_for(&self, recipient: &Ed25519PublicKey, now: i64) -> (r: Vec<GrantState>)
        ensures
            r@ == self.grants_view().filter(|g: GrantState| g.recipient.0@ == recipient.0@ && grant_valid(g, now)),
    {
        let mut out: Vec<GrantState> = Vec::new();
        let mut i: usize = 0;
        while i < self.grants.len()
            invariant
                0 <= i <= self.grants@.len(),
                out@ == self.grants@.subrange(0, i as int).filter(
                    |g: GrantState| g.recipient.0@ == recipient.0@ && grant_valid(g, now),
                ),
            decreases self.grants@.len() - i,
        {
            let g = self.grants[i];
            proof {
                reveal(Seq::filter);
                assert(self.grants@.subrange(0, i + 1).drop_last() =~= self.grants@.subrange(0, i as int));
            }
            if g.recipient == *recipient && g.is_valid(now) {
                out.push(g);
            }
            i = i + 1;
        }
        assert(self.grants@.subrange(0, self.grants@.len() as int) =~= self.grants@);
        out
    }
}

/// The decoded payload of a receipt of a permissions stream.
#[derive(Debug, Clone)]
pub enum PermissionPayload {
    Grant(GrantPayload),
    Revoke(RevokePayload),
    /// Any other payload, which replay ignores.
    Other,
}

impl PermissionState {
    /// Replays one receipt of a permissions stream, given its decoded
    /// payload: a Grant receipt records a grant, a Revoke receipt revokes one,
    /// and other kinds change nothing. A Grant or Revoke receipt whose
    /// payload is not of its kind is an invalid grant.
    pub fn apply_receipt(&mut self, receipt: &Receipt, payload: PermissionPayload) -> (r: Result<(), PermsError>)
        requires
            old(self).wf(),
        ensures
            final(self).wf(),
            keeps_revocations(old(self).grants_view(), final(self).grants_view()),
            r is Err <==> ((receipt.header.kind == ReceiptKind::Grant && !(payload is Grant)) || (receipt.header.kind
                == ReceiptKind::Revoke && !(payload is Revoke))),
            r is Err ==> (r matches Err(PermsError::InvalidGrant(_)) && final(self).grants_view() == old(
                self,
            ).grants_view()),
            receipt.header.kind != ReceiptKind::Grant && receipt.header.kind != ReceiptKind::Revoke
                ==> final(self).grants_view() == old(self).grants_view(),
            receipt.header.kind == ReceiptKind::Grant ==> (payload matches PermissionPayload::Grant(g) ==> {
                let id = spec_receipt_id(receipt@);
                if old(self).has_grant(id) {
                    final(self).grants_view() == old(self).grants_view()
                } else {
                    &&& final(self).grants_view().len() == old(self).grants_view().len() + 1
                    &&& final(self).grants_view().drop_last() == old(self).grants_view()
                    &&& final(self).grants_view().last().grant_receipt_id.0@ == id
                    &&& final(self).grants_view().last().grantor == receipt.header.author
                    &&& final(self).grants_view().last().recipient == g.recipient
                    &&& final(self).grants_view().last().scope == g.scope
                    &&& final(self).grants_view().last().conditions == g.conditions
                    &&& final(self).grants_view().last().granted_at_seq == receipt.header.seq
                    &&& !final(self).grants_view().last().revoked
                    &&& final(self).grants_view().last().use_count == 0
                }
            }),
            receipt.header.kind == ReceiptKind::Revoke ==> (payload matches PermissionPayload::Revoke(rv) ==> {
                &&& final(self).grants_view().len() == old(self).grants_view().len()
                &&& forall|i: int|
                    0 <= i < old(self).grants_view().len() ==> (#[trigger] final(self).grants_view()[i]).revoked == (
                    old(self).grants_view()[i].revoked || old(self).grants_view()[i].grant_receipt_id.0@
                        == rv.grant_receipt_id.0@)
            }),
    {
        let receipt_id = receipt.compute_id();
        match receipt.header.kind {
            ReceiptKind::Grant => match payload {
                PermissionPayload::Grant(g) => {
                    let ghost before = self.grants_view();
                    let ghost had = self.has_grant(receipt_id.0@);
                    self.apply_grant(receipt_id, receipt.header.author, receipt.header.seq, g);
                    proof {
                        if !had {
                            assert(self.grants_view().drop_last() =~= before);
                        }
                    }
                    Ok(())
                },
                _ => Err(PermsError::InvalidGrant("payload is not a grant".to_string())),
            },
            ReceiptKind::Revoke => match payload {
                PermissionPayload::Revoke(rv) => {
                    self.apply_revoke(receipt_id, receipt.header.seq, rv);
                    Ok(())
                },
                _ => Err(PermsError::InvalidGrant("payload is not a revocation".to_string())),
            },
            _ => Ok(()),
        }
    }
}

/// Every grant of `before` is still in `after` at the same place, and a
/// revoked one is still revoked.
pub open spec fn keeps_revocations(before: Seq<GrantState>, after: Seq<GrantState>) -> bool {
    &&& before.len() <= after.len()
    &&& forall|i: int|
        0 <= i < before.len() ==> (#[trigger] after[i]).grant_receipt_id == before[i].grant_receipt_id && (
        before[i].revoked ==> after[i].revoked)
}

/// Expiry only removes access: whatever read or write access a state gives at
/// a later time, it already gave at any earlier time.
pub proof fn lemma_access_monotone_in_time(
    st: PermissionState,
    principal: Seq<u8>,
    sid: Seq<u8>,
    rid: Seq<u8>,
    earlier: i64,
    later: i64,
)
    requires
        earlier <= later,
    ensures
        st.spec_can_read_stream(principal, sid, later) ==> st.spec_can_read_stream(principal, sid, earlier),
        st.spec_can_read_receipt(principal, rid, sid, later) ==> st.spec_can_read_receipt(
            principal,
            rid,
            sid,
            earlier,
        ),
        st.spec_can_write_stream(principal, sid, later) ==> st.spec_can_write_stream(principal, sid, earlier),
{
    if st.spec_can_read_stream(principal, sid, later) {
        let i = choose|i: int|
            0 <= i < st.grants_view().len() && #[trigger] grant_reads_stream(st.grants_view()[i], principal, sid, later);
        assert(grant_reads_stream(st.grants_view()[i], principal, sid, earlier));
    }
    if st.spec_can_read_receipt(principal, rid, sid, later) && !st.spec_can_read_stream(principal, sid, later) {
        let i = choose|i: int|
            0 <= i < st.grants_view().len() && #[trigger] grant_reads_receipt(st.grants_view()[i], principal, rid, later);
        assert(grant_reads_receipt(st.grants_view()[i], principal, rid, earlier));
    }
    if st.spec_can_write_stream(principal, sid, later) {
        let i = choose|i: int|
            0 <= i < st.grants_view().len() && #[trigger] grant_writes_stream(st.grants_view()[i], principal, sid, later);
        assert(grant_writes_stream(st.grants_view()[i], principal, sid, earlier));
    }
}

/// Grant `g` gives `principal` read access to stream `sid` at `now`.
pub open spec fn grant_reads_stream(g: GrantState, principal: Seq<u8>, sid: Seq<u8>, now: i64) -> bool {
    g.recipient.0@ == principal && scope_reads_stream(g.scope, sid) && grant_valid(g, now)
}

/// Grant `g` gives `principal` read access to receipt `rid` itself at `now`.
pub open spec fn grant_reads_receipt(g: GrantState, principal: Seq<u8>, rid: Seq<u8>, now: i64) -> bool {
    g.recipient.0@ == principal && scope_reads_receipt_only(g.scope, rid) && grant_valid(g, now)
}

/// Grant `g` gives `principal` write access to stream `sid` at `now`.
pub open spec fn grant_writes_stream(g: GrantState, principal: Seq<u8>, sid: Seq<u8>, now: i64) -> bool {
    g.recipient.0@ == principal && scope_writes_stream(g.scope, sid) && grant_valid(g, now)
}

} // verus!
