//! Digests of blobs.

use vstd::prelude::*;

verus! {

/// Names a blob by the hash of its contents and its size.
#[derive(Clone, Default, Debug, PartialEq, Eq, Hash)]
pub struct TDigest {
    pub hash: String,
    pub size_in_bytes: i64,
}

impl TDigest {
    pub fn new(hash: String, size_in_bytes: i64) -> (digest: Self)
        ensures
            digest.hash == hash,
            digest.size_in_bytes == size_in_bytes,
    {
        TDigest { hash, size_in_bytes }
    }
}

} // verus!
