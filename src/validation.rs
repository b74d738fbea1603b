//! Structural and cryptographic validation of receipts.
use vstd::prelude::*;
use crate::canonical::{signed_message, spec_signed_message};
use crate::crypto::{blake3_of, ed25519_accepts, Blake3Hash, CoreError};
use crate::receipt::{Receipt, ReceiptKind, ReceiptModel, MAX_REFS, RECEIPT_VERSION};
use crate::types::ReceiptId;

verus! {

/// Why a receipt was rejected.
#[derive(Debug, Clone, PartialEq, Eq)]
pub enum ValidationError {
    SignatureFailed,
    PayloadHashMismatch,
    UnsupportedVersion(u8),
    InvalidSequence { expected: u64, got: u64 },
    InvalidPrevReceipt { expected: Option<ReceiptId>, got: Option<ReceiptId> },
    SequenceConflict { seq: u64, existing: ReceiptId, new: ReceiptId },
    StreamForked(u64),
    TooManyRefs,
    TombstoneMissingRef,
    InvalidKind(u16),
    StructuralError(String),
}

/// Signing and key failures become `SignatureFailed`; decoding failures become
/// `StructuralError`.
pub open spec fn validation_error_of(e: CoreError) -> ValidationError {
    match e {
        CoreError::InvalidSignature => ValidationError::SignatureFailed,
        CoreError::InvalidPublicKey => ValidationError::SignatureFailed,
        CoreError::PayloadHashMismatch { .. } => ValidationError::PayloadHashMismatch,
        CoreError::UnsupportedVersion(v) => ValidationError::UnsupportedVersion(v),
        CoreError::MalformedReceipt(msg) => ValidationError::StructuralError(msg),
        CoreError::EncodingError(msg) => ValidationError::StructuralError(msg),
        CoreError::DecodingError(msg) => ValidationError::StructuralError(msg),
    }
}

impl From<CoreError> for ValidationError {
    fn from(e: CoreError) -> (r: ValidationError) {
        match e {
            CoreError::InvalidSignature => ValidationError::SignatureFailed,
            CoreError::InvalidPublicKey => ValidationError::SignatureFailed,
            CoreError::PayloadHashMismatch { .. } => ValidationError::PayloadHashMismatch,
            CoreError::UnsupportedVersion(v) => ValidationError::UnsupportedVersion(v),
            CoreError::MalformedReceipt(msg) => ValidationError::StructuralError(msg),
            CoreError::EncodingError(msg) => ValidationError::StructuralError(msg),
            CoreError::DecodingError(msg) => ValidationError::StructuralError(msg),
        }
    }
}

impl vstd::std_specs::convert::FromSpecImpl<CoreError> for ValidationError {
    open spec fn obeys_from_spec() -> bool {
        true
    }

    open spec fn from_spec(e: CoreError) -> ValidationError {
        validation_error_of(e)
    }
}

/// The structural rules, which need no outside state.
pub open spec fn structurally_valid(r: ReceiptModel) -> bool {
    &&& r.header.version == RECEIPT_VERSION
    &&& blake3_of(r.payload) == r.header.payload_hash
    &&& r.header.refs.len() <= MAX_REFS
    &&& (r.header.kind == ReceiptKind::Tombstone ==> r.header.refs.len() > 0)
    &&& (r.header.kind == ReceiptKind::StreamInit ==> r.header.seq == 1
        && r.header.prev_receipt_id is None)
    &&& (r.header.seq > 1 ==> r.header.prev_receipt_id is Some)
}

/// The error for the first structural rule that `r` breaks, checked in the
/// order version, payload hash, refs count, tombstone ref, stream-init
/// position, predecessor.
pub open spec fn structural_outcome(r: Receipt, out: Result<(), ValidationError>) -> bool {
    let h = r.header@;
    if h.version != RECEIPT_VERSION {
        out == Err::<(), ValidationError>(ValidationError::UnsupportedVersion(h.version))
    } else if blake3_of(r.payload@) != h.payload_hash {
        out == Err::<(), ValidationError>(ValidationError::PayloadHashMismatch)
    } else if h.refs.len() > MAX_REFS {
        out == Err::<(), ValidationError>(ValidationError::TooManyRefs)
    } else if h.kind == ReceiptKind::Tombstone && h.refs.len() == 0 {
        out == Err::<(), ValidationError>(ValidationError::TombstoneMissingRef)
    } else if h.kind == ReceiptKind::StreamInit && h.seq != 1 {
        out == Err::<(), ValidationError>(ValidationError::InvalidSequence { expected: 1, got: h.seq })
    } else if h.kind == ReceiptKind::StreamInit && h.prev_receipt_id is Some {
        out == Err::<(), ValidationError>(
            ValidationError::InvalidPrevReceipt { expected: None, got: r.header.prev_receipt_id },
        )
    } else if h.seq > 1 && h.prev_receipt_id is None {
        out matches Err(ValidationError::StructuralError(_))
    } else {
        out is Ok
    }
}

/// Checks the structural rules without the signature.
pub fn validate_receipt_structure(receipt: &Receipt) -> (r: Result<(), ValidationError>)
    ensures
        structural_outcome(*receipt, r),
        r is Ok <==> structurally_valid(receipt@),
{
    if receipt.header.version != RECEIPT_VERSION {
        return Err(ValidationError::UnsupportedVersion(receipt.header.version));
    }
    let computed_hash = Blake3Hash::hash(receipt.payload.as_slice());
    if computed_hash != receipt.header.payload_hash {
        return Err(ValidationError::PayloadHashMismatch);
    }
    if receipt.header.refs.len() > MAX_REFS {
        return Err(ValidationError::TooManyRefs);
    }
    if receipt.header.kind == ReceiptKind::Tombstone && receipt.header.refs.len() == 0 {
        return Err(ValidationError::TombstoneMissingRef);
    }
    if receipt.header.kind == ReceiptKind::StreamInit {
        if receipt.header.seq != 1 {
            return Err(ValidationError::InvalidSequence { expected: 1, got: receipt.header.seq });
        }
        if receipt.header.prev_receipt_id.is_some() {
            return Err(
                ValidationError::InvalidPrevReceipt {
                    expected: None,
                    got: receipt.header.prev_receipt_id,
                },
            );
        }
    }
    if receipt.header.seq > 1 && receipt.header.prev_receipt_id.is_none() {
        return Err(ValidationError::StructuralError("seq > 1 requires prev_receipt_id".to_string()));
    }
    Ok(())
}

/// Whether the signature verifies over the signed message under the author key.
pub open spec fn signature_valid(r: ReceiptModel) -> bool {
    ed25519_accepts(r.header.author, spec_signed_message(r.header, r.payload), r.signature)
}

/// The structural rules, then the signature.
pub fn validate_receipt(receipt: &Receipt) -> (r: Result<(), ValidationError>)
    ensures
        !structurally_valid(receipt@) ==> structural_outcome(*receipt, r),
        structurally_valid(receipt@) ==> (r is Ok <==> signature_valid(receipt@)),
        structurally_valid(receipt@) && !signature_valid(receipt@) ==> r == Err::<(), ValidationError>(
            ValidationError::SignatureFailed,
        ),
{
    match validate_receipt_structure(receipt) {
        Ok(()) => {},
        Err(e) => return Err(e),
    }
    let message = signed_message(receipt);
    match receipt.header.author.verify(message.as_slice(), &receipt.signature) {
        Ok(()) => Ok(()),
        Err(_) => Err(ValidationError::SignatureFailed),
    }
}

} // verus!
