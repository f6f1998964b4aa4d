//! Caller-supplied data attached to a stored blob.

use vstd::prelude::*;

verus! {

/// Metadata supplied by the caller at store time and persisted verbatim.
#[derive(Debug, PartialEq, Eq)]
pub struct Metadata {
    pub username: String,
    pub file_ext: String,
}

impl Clone for Metadata {
    fn clone(&self) -> (r: Self)
        ensures
            r == *self,
    {
        Metadata { username: self.username.clone(), file_ext: self.file_ext.clone() }
    }
}

/// The body of an upload request: metadata plus the payload in its
/// transport text encoding.
#[derive(Debug)]
pub struct UploadData {
    pub metadata: Metadata,
    pub file: String,
}

} // verus!
