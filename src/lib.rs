//! A verified kernel for signed, content-addressed receipts: canonical
//! encoding, stream bookkeeping, permission replay, key sharing and the
//! decisions of the anti-entropy sync protocol.
pub mod bytes;
pub mod crypto;
pub mod types;
pub mod receipt;
pub mod stream;
pub mod canonical;
pub mod validation;
pub mod grant;
pub mod permissions;
pub mod agreement;
pub mod keyshare;
pub mod store;
pub mod sync;
pub mod cid;
pub mod kernel;
