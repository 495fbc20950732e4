//! Status codes of the remote execution service.

use vstd::prelude::*;

verus! {

/// The code of a status, as the service numbers them.
#[derive(Clone, Copy, Default, Debug, PartialEq, Eq, Hash)]
pub struct TCode(pub i32);

impl TCode {
    /// The call went well.
    pub fn ok() -> (code: Self)
        ensures
            code.0 == 0,
    {
        TCode(0)
    }

    /// What was asked for is not there.
    pub fn not_found() -> (code: Self)
        ensures
            code.0 == 5,
    {
        TCode(5)
    }

    pub fn is_ok(&self) -> (b: bool)
        ensures
            b == (self.0 == 0),
    {
        self.0 == 0
    }
}

} // verus!
