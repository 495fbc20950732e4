//! The root cause of an error.

use vstd::prelude::*;

use crate::buck2_error::context_value::ErrorType;

verus! {

/// Tells the roots of errors apart. Whoever creates roots hands each one an
/// id of its own.
#[derive(Clone, Copy, Debug, PartialEq, Eq, Structural, Hash)]
pub struct UniqueRootId(pub u64);

pub struct ErrorRoot {
    pub id: UniqueRootId,
    pub description: String,
    pub error_type: Option<ErrorType>,
    pub source_location: Option<String>,
}

impl ErrorRoot {
    pub fn new(
        id: UniqueRootId,
        description: String,
        error_type: Option<ErrorType>,
        source_location: Option<String>,
    ) -> (root: Self)
        ensures
            root.id == id,
            root.description == description,
            root.error_type == error_type,
            root.source_location == source_location,
    {
        ErrorRoot { id, description, error_type, source_location }
    }

    pub fn id(&self) -> (id: UniqueRootId)
        ensures
            id == self.id,
    {
        self.id
    }

    pub fn description(&self) -> (text: &str)
        ensures
            text@ == self.description@,
    {
        self.description.as_str()
    }

    pub fn error_type(&self) -> (error_type: Option<ErrorType>)
        ensures
            error_type == self.error_type,
    {
        self.error_type
    }

    pub fn source_location(&self) -> (location: Option<&str>)
        ensures
            location is Some == self.source_location is Some,
            location matches Some(text) ==> text@ == self.source_location->0@,
    {
        match &self.source_location {
            Some(location) => Some(location.as_str()),
            None => None,
        }
    }
}

} // verus!
