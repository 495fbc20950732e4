//! Looking into the allocator of the daemon. This build comes without an
//! allocator that can be looked into, so there is nothing to report.

use vstd::prelude::*;

use crate::buck2_error::context_value::ContextValue;
use crate::buck2_error::context_value::ErrorTag;
use crate::buck2_error::error::Error;
use crate::buck2_error::error::ErrorKind;
use crate::buck2_error::root::UniqueRootId;

verus! {

/// Something that this build cannot do.
#[derive(Clone, Copy, Debug, PartialEq, Eq)]
pub struct Unimplemented {
    pub message: &'static str,
}

impl Unimplemented {
    /// The refusal as an error with the given id at its root, tagged as
    /// unimplemented.
    pub fn into_error(self, id: UniqueRootId) -> (e: Error)
        ensures
            e.root.id == id,
            e.root.description@ == self.message@,
            e.layers@.len() == 1,
            *e.layers@[0] matches ErrorKind::WithContext(ContextValue::Tags(tags)) && tags@
                == seq![ErrorTag::Unimplemented],
    {
        let mut tags: Vec<ErrorTag> = Vec::new();
        tags.push(ErrorTag::Unimplemented);
        let e = Error::new(id, self.message).tag(tags);
        proof {
            assert(e.layers@[0] == e.layers@.last());
        }
        e
    }
}

/// Output the current state of the heap to the filename specified. This
/// build has no way to do so.
pub fn write_heap_to_file(_filename: &str) -> (result: Result<(), Unimplemented>)
    ensures
        result matches Err(refusal) && refusal.message@
            == "not implemented: heap dump for Cargo builds"@,
{
    Err(Unimplemented { message: "not implemented: heap dump for Cargo builds" })
}

/// Dump allocator stats. This build has no way to do so.
pub fn allocator_stats(_options: &str) -> (result: Result<String, Unimplemented>)
    ensures
        result matches Err(refusal) && refusal.message@
            == "not implemented: allocator stats  for Cargo builds"@,
{
    Err(Unimplemented { message: "not implemented: allocator stats  for Cargo builds" })
}

/// Lets the allocator purge unused pages in the background. Nothing to do in
/// this build.
pub fn enable_background_threads() -> (result: Result<(), Unimplemented>)
    ensures
        result is Ok,
{
    Ok(())
}

pub fn has_jemalloc_stats() -> (b: bool)
    ensures
        !b,
{
    false
}

} // verus!
