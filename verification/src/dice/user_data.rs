//! What a caller attaches to a transaction for the computations to read.

use vstd::prelude::*;

use crate::buck2_file_watcher::mergebase::Mergebase;

verus! {

pub struct UserComputationData {
    pub mergebase: Option<Mergebase>,
}

impl UserComputationData {
    pub fn new() -> (data: Self)
        ensures
            data.mergebase is None,
    {
        UserComputationData { mergebase: None }
    }

    /// A second handle on the same data.
    pub fn dupe(&self) -> (copy: Self)
        ensures
            copy == *self,
    {
        UserComputationData {
            mergebase: match &self.mergebase {
                Some(mergebase) => Some(mergebase.dupe()),
                None => None,
            },
        }
    }
}

} // verus!
