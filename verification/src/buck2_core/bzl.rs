//! Names of modules that can be imported.

use vstd::prelude::*;

verus! {

pub struct ModuleID(pub String);

impl ModuleID {
    pub fn as_str(&self) -> (text: &str)
        ensures
            text@ == self.0@,
    {
        self.0.as_str()
    }
}

} // verus!
