//! The content-address of a receipt.
use vstd::prelude::*;
use crate::bytes::{eq32, hex_of, to_hex_string};

verus! {

/// A 32-byte receipt identifier: the hash of a receipt's canonical bytes.
#[derive(Debug, Clone, Copy)]
pub struct ReceiptId(pub [u8; 32]);

impl PartialEq for ReceiptId {
    fn eq(&self, o: &ReceiptId) -> (r: bool) {
        eq32(&self.0, &o.0)
    }
}

impl vstd::std_specs::cmp::PartialEqSpecImpl for ReceiptId {
    open spec fn obeys_eq_spec() -> bool {
        true
    }

    open spec fn eq_spec(&self, o: &ReceiptId) -> bool {
        self.0@ == o.0@
    }
}

impl Eq for ReceiptId {}

impl ReceiptId {
    /// The all-zero receipt id, used as a sentinel.
    pub fn zero() -> (r: ReceiptId)
        ensures
            r.0@ == Seq::new(32, |i: int| 0u8),
    {
        let r = ReceiptId([0u8; 32]);
        assert(r.0@ =~= Seq::new(32, |i: int| 0u8));
        r
    }

    pub fn from_bytes(bytes: [u8; 32]) -> (r: ReceiptId)
        ensures
            r.0 == bytes,
    {
        ReceiptId(bytes)
    }

    pub fn as_bytes(&self) -> (r: &[u8; 32])
        ensures
            *r == self.0,
    {
        &self.0
    }

    /// Lowercase hex of the 32 bytes.
    pub fn to_hex(&self) -> (r: String)
        ensures
            r@ == hex_of(self.0@),
    {
        to_hex_string(&self.0)
    }

    /// Parses lowercase hex of 32 bytes (as `to_hex` writes it).
    pub fn from_hex(s: &str) -> (r: Result<ReceiptId, crate::bytes::HexError>)
        ensures
            forall|b: Seq<u8>| b.len() == 32 && #[trigger] hex_of(b) == s@ ==> (r matches Ok(v) && v.0@ == b),
            r is Ok ==> s@.len() == 64,
    {
        match crate::bytes::decode_hex32(s) {
            Ok(a) => Ok(ReceiptId(a)),
            Err(e) => Err(e),
        }
    }

    /// The short display form: hex of the first eight bytes.
    pub fn to_string(&self) -> (r: String)
        ensures
            r@ == hex_of(self.0@.subrange(0, 8)),
    {
        to_hex_string(self.0.as_slice().split_at(8).0)
    }
}

} // verus!
