//! Grant and Revoke payloads: permissions expressed as receipts.
use vstd::prelude::*;
use crate::crypto::Ed25519PublicKey;
use crate::stream::StreamId;
use crate::types::ReceiptId;

verus! {

/// What a grant gives access to.
#[derive(Debug, Clone, Copy, PartialEq, Eq)]
pub enum PermissionScope {
    /// Read access to a whole stream.
    ReadStream { stream_id: StreamId },
    /// Read access to one receipt.
    ReadReceipt { receipt_id: ReceiptId },
    /// Write access to a stream.
    WriteStream { stream_id: StreamId },
    /// Full control of a stream; implies read and write.
    Admin { stream_id: StreamId },
}

/// Whether `scope` lets its holder read stream `sid`.
pub open spec fn scope_reads_stream(scope: PermissionScope, sid: Seq<u8>) -> bool {
    match scope {
        PermissionScope::ReadStream { stream_id } => stream_id.0@ == sid,
        PermissionScope::Admin { stream_id } => stream_id.0@ == sid,
        _ => false,
    }
}

/// Whether `scope` names receipt `rid` itself.
pub open spec fn scope_reads_receipt_only(scope: PermissionScope, rid: Seq<u8>) -> bool {
    match scope {
        PermissionScope::ReadReceipt { receipt_id } => receipt_id.0@ == rid,
        _ => false,
    }
}

/// Whether `scope` lets its holder write stream `sid`.
pub open spec fn scope_writes_stream(scope: PermissionScope, sid: Seq<u8>) -> bool {
    match scope {
        PermissionScope::WriteStream { stream_id } => stream_id.0@ == sid,
        PermissionScope::Admin { stream_id } => stream_id.0@ == sid,
        _ => false,
    }
}

impl PermissionScope {
    /// Read access to `stream_id`: ReadStream or Admin on it.
    pub fn can_read_stream(&self, stream_id: &StreamId) -> (r: bool)
        ensures
            r == scope_reads_stream(*self, stream_id.0@),
    {
        match self {
            PermissionScope::ReadStream { stream_id: sid } => *sid == *stream_id,
            PermissionScope::Admin { stream_id: sid } => *sid == *stream_id,
            _ => false,
        }
    }

    /// Read access to a receipt: ReadReceipt on it, or read access to its stream.
    pub fn can_read_receipt(&self, receipt_id: &ReceiptId, stream_id: &StreamId) -> (r: bool)
        ensures
            r == (scope_reads_receipt_only(*self, receipt_id.0@) || scope_reads_stream(*self, stream_id.0@)),
    {
        match self {
            PermissionScope::ReadReceipt { receipt_id: rid } => *rid == *receipt_id,
            PermissionScope::ReadStream { stream_id: sid } => *sid == *stream_id,
            PermissionScope::Admin { stream_id: sid } => *sid == *stream_id,
            _ => false,
        }
    }

    /// Write access to `stream_id`: WriteStream or Admin on it.
    pub fn can_write_stream(&self, stream_id: &StreamId) -> (r: bool)
        ensures
            r == scope_writes_stream(*self, stream_id.0@),
    {
        match self {
            PermissionScope::WriteStream { stream_id: sid } => *sid == *stream_id,
            PermissionScope::Admin { stream_id: sid } => *sid == *stream_id,
            _ => false,
        }
    }

    /// The stream the scope applies to; none for a single receipt.
    pub fn stream_id(&self) -> (r: Option<&StreamId>)
        ensures
            r == match *self {
                PermissionScope::ReadStream { stream_id } => Some(&stream_id),
                PermissionScope::WriteStream { stream_id } => Some(&stream_id),
                PermissionScope::Admin { stream_id } => Some(&stream_id),
                PermissionScope::ReadReceipt { .. } => None::<&StreamId>,
            },
    {
        match self {
            PermissionScope::ReadStream { stream_id } => Some(stream_id),
            PermissionScope::WriteStream { stream_id } => Some(stream_id),
            PermissionScope::Admin { stream_id } => Some(stream_id),
            PermissionScope::ReadReceipt { .. } => None,
        }
    }
}

/// Limits on a grant.
#[derive(Debug, Clone, Copy, PartialEq, Eq, Structural)]
pub struct Conditions {
    /// Expiry time in Unix milliseconds.
    pub expires_at: Option<i64>,
    /// Number of uses allowed.
    pub max_uses: Option<u32>,
}

/// A grant under `c` is still good at `now` after `uses` uses: not past
/// expiry and below the use limit.
pub open spec fn conditions_hold(c: Conditions, now: i64, uses: u32) -> bool {
    &&& (c.expires_at matches Some(e) ==> now <= e)
    &&& (c.max_uses matches Some(m) ==> uses < m)
}

impl Conditions {
    /// No conditions at all.
    pub fn none() -> (r: Option<Conditions>)
        ensures
            r is None,
    {
        None
    }

    /// Expiry at `timestamp`, no use limit.
    pub fn expires_at(timestamp: i64) -> (r: Conditions)
        ensures
            r == (Conditions { expires_at: Some(timestamp), max_uses: None }),
    {
        Conditions { expires_at: Some(timestamp), max_uses: None }
    }

    /// A use limit of `count`, no expiry.
    pub fn max_uses(count: u32) -> (r: Conditions)
        ensures
            r == (Conditions { expires_at: None, max_uses: Some(count) }),
    {
        Conditions { expires_at: None, max_uses: Some(count) }
    }

    /// Whether the conditions still hold at `now` after `uses` uses.
    pub fn is_valid(&self, now: i64, uses: u32) -> (r: bool)
        ensures
            r == conditions_hold(*self, now, uses),
    {
        if let Some(expires) = self.expires_at {
            if now > expires {
                return false;
            }
        }
        if let Some(max) = self.max_uses {
            if uses >= max {
                return false;
            }
        }
        true
    }
}

/// The payload of a Grant receipt.
#[derive(Debug, Clone, Copy, PartialEq, Eq)]
pub struct GrantPayload {
    /// Who receives access.
    pub recipient: Ed25519PublicKey,
    /// What access.
    pub scope: PermissionScope,
    /// Optional limits.
    pub conditions: Option<Conditions>,
}

impl GrantPayload {
    /// A grant to read `stream_id`, without conditions.
    pub fn read_stream(recipient: Ed25519PublicKey, stream_id: StreamId) -> (r: GrantPayload)
        ensures
            r == (GrantPayload { recipient, scope: PermissionScope::ReadStream { stream_id }, conditions: None }),
    {
        GrantPayload { recipient, scope: PermissionScope::ReadStream { stream_id }, conditions: None }
    }

    /// A grant to read one receipt, without conditions.
    pub fn read_receipt(recipient: Ed25519PublicKey, receipt_id: ReceiptId) -> (r: GrantPayload)
        ensures
            r == (GrantPayload {
                recipient,
                scope: PermissionScope::ReadReceipt { receipt_id },
                conditions: None,
            }),
    {
        GrantPayload { recipient, scope: PermissionScope::ReadReceipt { receipt_id }, conditions: None }
    }

    /// The same grant with `conditions` attached.
    pub fn with_conditions(self, conditions: Conditions) -> (r: GrantPayload)
        ensures
            r == (GrantPayload { conditions: Some(conditions), ..self }),
    {
        GrantPayload { conditions: Some(conditions), ..self }
    }
}

/// The payload of a Revoke receipt.
#[derive(Debug, Clone, PartialEq, Eq)]
pub struct RevokePayload {
    /// The grant being revoked.
    pub grant_receipt_id: ReceiptId,
    /// Why, if said.
    pub reason: Option<String>,
}

impl RevokePayload {
    pub fn new(grant_receipt_id: ReceiptId) -> (r: RevokePayload)
        ensures
            r.grant_receipt_id == grant_receipt_id,
            r.reason is None,
    {
        RevokePayload { grant_receipt_id, reason: None }
    }

    pub fn with_reason(self, reason: String) -> (r: RevokePayload)
        ensures
            r.grant_receipt_id == self.grant_receipt_id,
            r.reason == Some(reason),
    {
        RevokePayload { grant_receipt_id: self.grant_receipt_id, reason: Some(reason) }
    }
}

} // verus!
