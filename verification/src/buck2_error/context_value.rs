//! What can be attached to an error on its way up.

use vstd::prelude::*;

verus! {

/// Who has to act on an error.
#[derive(Clone, Copy, Debug, PartialEq, Eq, Structural, Hash)]
pub enum Category {
    User,
    Infra,
}

/// The kind of failure at the root of an error, where it is known.
#[derive(Clone, Copy, Debug, PartialEq, Eq, Structural, Hash)]
pub enum ErrorType {
    Panic,
    Watchman,
    ActionCommandFailure,
}

/// A label on an error, for grouping errors in reports.
#[derive(Clone, Copy, Debug, PartialEq, Eq, Structural, Hash)]
pub enum ErrorTag {
    Environment,
    Input,
    InternalError,
    Mallctl,
    MallocStats,
    Tier0,
    Unimplemented,
}

/// How many tags there are.
pub const TAGS: usize = 7;

impl ErrorTag {
    /// The place of the tag among all tags when they are ordered by their
    /// names.
    pub open spec fn rank_spec(self) -> nat {
        match self {
            ErrorTag::Environment => 0,
            ErrorTag::Input => 1,
            ErrorTag::InternalError => 2,
            ErrorTag::Mallctl => 3,
            ErrorTag::MallocStats => 4,
            ErrorTag::Tier0 => 5,
            ErrorTag::Unimplemented => 6,
        }
    }

    pub fn rank(self) -> (r: usize)
        ensures
            r == self.rank_spec(),
            r < TAGS,
    {
        match self {
            ErrorTag::Environment => 0,
            ErrorTag::Input => 1,
            ErrorTag::InternalError => 2,
            ErrorTag::Mallctl => 3,
            ErrorTag::MallocStats => 4,
            ErrorTag::Tier0 => 5,
            ErrorTag::Unimplemented => 6,
        }
    }

    /// The tag at a place.
    pub fn from_rank(r: usize) -> (tag: ErrorTag)
        requires
            r < TAGS,
        ensures
            tag.rank_spec() == r,
    {
        if r == 0 {
            ErrorTag::Environment
        } else if r == 1 {
            ErrorTag::Input
        } else if r == 2 {
            ErrorTag::InternalError
        } else if r == 3 {
            ErrorTag::Mallctl
        } else if r == 4 {
            ErrorTag::MallocStats
        } else if r == 5 {
            ErrorTag::Tier0
        } else {
            ErrorTag::Unimplemented
        }
    }

    /// The name of the tag in reports.
    pub fn as_str_name(self) -> (name: &'static str)
        ensures
            name@ == (match self {
                ErrorTag::Environment => "ENVIRONMENT"@,
                ErrorTag::Input => "INPUT"@,
                ErrorTag::InternalError => "INTERNAL_ERROR"@,
                ErrorTag::Mallctl => "MALLCTL"@,
                ErrorTag::MallocStats => "MALLOC_STATS"@,
                ErrorTag::Tier0 => "TIER0"@,
                ErrorTag::Unimplemented => "UNIMPLEMENTED"@,
            }),
    {
        match self {
            ErrorTag::Environment => "ENVIRONMENT",
            ErrorTag::Input => "INPUT",
            ErrorTag::InternalError => "INTERNAL_ERROR",
            ErrorTag::Mallctl => "MALLCTL",
            ErrorTag::MallocStats => "MALLOC_STATS",
            ErrorTag::Tier0 => "TIER0",
            ErrorTag::Unimplemented => "UNIMPLEMENTED",
        }
    }
}

/// Two tags with the same place are the same tag.
pub proof fn lemma_rank_tells_tags_apart(a: ErrorTag, b: ErrorTag)
    ensures
        a.rank_spec() == b.rank_spec() <==> a == b,
{
}

pub enum ContextValue {
    /// Words that say what was being done.
    Dyn(String),
    Category(Category),
    Tags(Vec<ErrorTag>),
}

} // verus!
