//! An in-memory content-addressed blob store with verified streaming writes.
//!
//! Blobs are immutable byte sequences identified by the root hash of a
//! BLAKE3 tree over fixed-size blocks. The store keeps complete blobs,
//! partial blobs that grow as verified chunk batches arrive, persistent
//! named tags, reference-counted temp tags, and an ephemeral live set,
//! so that an external garbage collector can recognise every form of
//! liveness.
use vstd::prelude::*;

pub mod assoc;
pub mod batch;
pub mod entry;
pub mod geometry;
pub mod hash;
pub mod storage;
pub mod store;
pub mod tag;
pub mod temp;
pub mod trusted;

verus! {

/// Number of bytes in one BLAKE3 chunk.
pub const CHUNK_BYTES: u64 = 1024;

/// Number of bytes in one block: 16 chunks of 1024 bytes.
pub const BLOCK_BYTES: u64 = 16384;

/// Number of bytes written per export window.
pub const EXPORT_WINDOW_BYTES: u64 = 1048576;

/// The export window, as a buffer length.
pub const EXPORT_WINDOW_USIZE: usize = 1048576;

/// What a failed store operation reports.
#[derive(Clone, Copy, Debug, PartialEq, Eq, Structural)]
pub enum StoreError {
    /// No blob under the given hash.
    NotFound,
    /// The request itself is malformed, such as a relative export
    /// target.
    InvalidInput,
    /// A batch did not hash consistently with the declared root.
    Verification,
}

} // verus!
