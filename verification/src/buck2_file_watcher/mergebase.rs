//! The base revision of the checkout, as the data of a transaction.

use std::sync::Arc;

use vstd::prelude::*;

use crate::dice::user_data::UserComputationData;
use crate::dice::value::dupe_arc;

verus! {

/// The base revision of the checkout.
pub struct Mergebase(pub Arc<Option<String>>);

impl Mergebase {
    /// A second handle on the same revision.
    pub fn dupe(&self) -> (copy: Self)
        ensures
            copy == *self,
    {
        Mergebase(dupe_arc(&self.0))
    }
}

pub trait SetMergebase {
    /// The revision that is set, if one is.
    spec fn mergebase_spec(&self) -> Option<Mergebase>;

    fn set_mergebase(&mut self, mergebase: Mergebase)
        ensures
            final(self).mergebase_spec() == Some(mergebase),
    ;
}

pub trait GetMergebase {
    /// The revision that is set, if one is.
    spec fn stored_mergebase(&self) -> Option<Mergebase>;

    /// The revision, which has to be set.
    fn get_mergebase(&self) -> (mergebase: Mergebase)
        requires
            self.stored_mergebase() is Some,
        ensures
            Some(mergebase) == self.stored_mergebase(),
    ;
}

impl SetMergebase for UserComputationData {
    open spec fn mergebase_spec(&self) -> Option<Mergebase> {
        self.mergebase
    }

    fn set_mergebase(&mut self, mergebase: Mergebase) {
        self.mergebase = Some(mergebase);
    }
}

impl GetMergebase for UserComputationData {
    open spec fn stored_mergebase(&self) -> Option<Mergebase> {
        self.mergebase
    }

    fn get_mergebase(&self) -> (mergebase: Mergebase) {
        match &self.mergebase {
            Some(mergebase) => mergebase.dupe(),
            None => {
                proof {
                    assert(false);
                }
                Mergebase(Arc::new(None))
            },
        }
    }
}

} // verus!
