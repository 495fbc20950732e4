//! Attributes whose value is one of a fixed list of names.

use vstd::prelude::*;

use crate::text::find_text;
use crate::text::lists;

verus! {

/// `str::to_lowercase`: the text in lower case.
pub uninterp spec fn lowercase(text: Seq<char>) -> Seq<char>;

/// `str::to_lowercase`: the lower case equivalent of the text, as a new
/// `String`.
#[verifier::external_body]
fn to_lowercase(text: &str) -> (lower: String)
    ensures
        lower@ == lowercase(text@),
{
    text.to_lowercase()
}

/// A value that a build file gives for an attribute.
pub enum AttrValue {
    Str(String),
    /// Any other value, as it is written.
    Other(String),
}

/// An attribute after coercion.
pub enum CoercedAttr {
    /// One of the names of an enumeration, as the enumeration spells it.
    EnumVariant(String),
}

pub enum CoercionError {
    /// The value is of the wrong type; what was expected and the value are
    /// given.
    TypeError(&'static str, String),
    /// The name is none of the enumeration; the name and the names of the
    /// enumeration are given.
    InvalidEnumVariant(String, Vec<String>),
}

/// An enumeration: the names that an attribute can have, in lower case.
pub struct EnumAttrType {
    pub variants: Vec<String>,
}

impl EnumAttrType {
    /// Coerces a name that is in lower case already: it has to be one of the
    /// names of the enumeration.
    pub fn coerce_lowercased(&self, s: String) -> (result: Result<CoercedAttr, CoercionError>)
        ensures
            lists(self.variants@, s@) ==> (result matches Ok(CoercedAttr::EnumVariant(name))
                && name@ == s@),
            !lists(self.variants@, s@) ==> (result matches Err(
                CoercionError::InvalidEnumVariant(name, wanted),
            ) && name == s && wanted@ == self.variants@),
    {
        match find_text(&self.variants, &s) {
            Some(at) => Ok(CoercedAttr::EnumVariant(self.variants[at].clone())),
            None => {
                let wanted = self.variants.clone();
                proof {
                    assert(wanted@ =~= self.variants@) by {
                        assert(wanted@.len() == self.variants@.len());
                        assert forall|i: int| 0 <= i < wanted@.len() implies wanted@[i]
                            == self.variants@[i] by {
                            assert(vstd::pervasive::cloned(self.variants@[i], wanted@[i]));
                        }
                    }
                }
                Err(CoercionError::InvalidEnumVariant(s, wanted))
            },
        }
    }

    /// Coerces the value of an attribute of the enumeration: a string that
    /// is one of its names when put in lower case. Enum names can be specified
    /// upper or lower case, so they are normalised to lowercase to make rule
    /// implementations easier.
    pub fn coerce_item(&self, value: &AttrValue) -> (result: Result<CoercedAttr, CoercionError>)
        ensures
            match *value {
                AttrValue::Str(s) => {
                    &&& lists(self.variants@, lowercase(s@)) ==> (result matches Ok(
                        CoercedAttr::EnumVariant(name),
                    ) && name@ == lowercase(s@))
                    &&& !lists(self.variants@, lowercase(s@)) ==> (result matches Err(
                        CoercionError::InvalidEnumVariant(name, wanted),
                    ) && name@ == lowercase(s@) && wanted@ == self.variants@)
                },
                AttrValue::Other(repr) => result matches Err(CoercionError::TypeError(expected, got))
                    && expected@ == "string"@ && got@ == repr@,
            },
    {
        match value {
            AttrValue::Str(s) => {
                let s = to_lowercase(s.as_str());
                self.coerce_lowercased(s)
            },
            AttrValue::Other(repr) => Err(CoercionError::TypeError("string", repr.clone())),
        }
    }
}

} // verus!
