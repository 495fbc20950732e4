//! Digests of dep files.

use vstd::prelude::*;

verus! {

/// How digests of a kind are made.
#[derive(Clone, Copy, Debug, PartialEq, Eq, Structural)]
pub struct CasDigestConfig {
    /// Whether the digest of a file is taken from its attributes where they
    /// hold one.
    pub source_files_from_attributes: bool,
}

/// A digest whose expiry is kept track of.
pub struct TrackedCasDigest {
    pub hash: Vec<u8>,
    pub size: u64,
}

/// A kind of digest.
pub trait CasDigestKind {
    /// The digest of nothing, for kinds whose empty blob is always there.
    fn empty_digest(config: CasDigestConfig) -> Option<TrackedCasDigest>;
}

pub struct DepFileDigestKind {
    _private: (),
}

impl CasDigestKind for DepFileDigestKind {
    fn empty_digest(_config: CasDigestConfig) -> (digest: Option<TrackedCasDigest>)
        ensures
            digest is None,
    {
        // No reason to optimize "empty" actions.
        None
    }
}

} // verus!
