//! The errors a cache operation can end in.

use vstd::prelude::*;

verus! {

/// Why a store or load operation failed.
#[derive(Debug, Clone, PartialEq, Eq)]
pub enum CacheError {
    /// The given identifier names no entry in the index.
    NotFound,
    /// A persisted file could not be created (the payload names which one).
    FileCreate(String),
    /// A persisted file could not be written (the payload names which one).
    FileWrite(String),
    /// A persisted file could not be opened (the payload names which one).
    FileOpen(String),
    /// A persisted file could not be read (the payload carries the cause).
    FileRead(String),
    /// The payload could not be compressed. Compression of an in-memory
    /// buffer is total, so the cache itself never yields this.
    Compression,
    /// The persisted bytes are not a valid compressed stream.
    Decompression,
}

} // verus!
