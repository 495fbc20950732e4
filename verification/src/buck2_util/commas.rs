//! Commas between the items of a list.

use vstd::prelude::*;

verus! {

/// Writes the separator before each item of a list but the first.
pub struct Commas {
    with_comma: bool,
}

impl Commas {
    /// Whether an item was written already.
    pub closed spec fn started(&self) -> bool {
        self.with_comma
    }

    /// What stands before the next item: nothing before the first item, a
    /// comma and a space before every other.
    pub fn separator(&mut self) -> (text: &'static str)
        ensures
            final(self).started(),
            old(self).started() ==> text@ == ", "@,
            !old(self).started() ==> text@ == ""@,
    {
        let text = if self.with_comma {
            ", "
        } else {
            ""
        };
        self.with_comma = true;
        text
    }

    /// Writes what stands before the next item.
    pub fn write(&mut self, f: &mut String)
        ensures
            final(self).started(),
            old(self).started() ==> final(f)@ == old(f)@ + ", "@,
            !old(self).started() ==> final(f)@ == old(f)@,
    {
        if self.with_comma {
            f.append(", ");
        }
        self.with_comma = true;
    }
}

/// Something that produces commas every time apart from the first.
pub fn commas() -> (separator: Commas)
    ensures
        !separator.started(),
{
    Commas { with_comma: false }
}

} // verus!
