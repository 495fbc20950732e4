//! Keys of actions.

use vstd::prelude::*;

use crate::buck2_core::deferred::BaseDeferredKey;
use crate::buck2_core::deferred::DeferredHolderKey;
use crate::text::decimal;
use crate::text::u64_to_decimal;

verus! {

/// A key to look up an action among the results of an analysis.
pub struct ActionKey {
    parent: DeferredHolderKey,
    id: ActionIndex,
}

/// An unique identifier for different actions with the same parent.
#[derive(Debug, Eq, PartialEq, Structural, Hash, Clone, Copy)]
pub struct ActionIndex(pub u32);

impl ActionIndex {
    pub fn new(v: u32) -> (index: ActionIndex)
        ensures
            index.0 == v,
    {
        Self(v)
    }
}

/// The key of an action as text: the key of its holder, if the holder has
/// one, an underscore, and the index of the action.
pub open spec fn action_key_text(parent: Option<Seq<char>>, id: u32) -> Seq<char> {
    (match parent {
        Some(key) => key,
        None => Seq::empty(),
    }) + "_"@ + decimal(id as nat)
}

/// An action key as it is shown: the holder as target and the index of the
/// action as id, each between backticks, in round brackets.
pub open spec fn shown(target: Seq<char>, id: u32) -> Seq<char> {
    "(target: `"@ + target + "`, id: `"@ + decimal(id as nat) + "`)"@
}

impl ActionKey {
    pub closed spec fn parent_spec(&self) -> DeferredHolderKey {
        self.parent
    }

    pub closed spec fn id_spec(&self) -> ActionIndex {
        self.id
    }

    pub fn new(parent: DeferredHolderKey, id: ActionIndex) -> (key: ActionKey)
        ensures
            key.parent_spec() == parent,
            key.id_spec() == id,
    {
        ActionKey { parent, id }
    }

    pub fn holder_key(&self) -> (parent: &DeferredHolderKey)
        ensures
            *parent == self.parent_spec(),
    {
        &self.parent
    }

    pub fn action_index(&self) -> (id: ActionIndex)
        ensures
            id == self.id_spec(),
    {
        self.id
    }

    pub fn owner(&self) -> (owner: &BaseDeferredKey)
        ensures
            *owner == self.parent_spec().owner_spec(),
    {
        self.parent.owner()
    }

    /// The key as it is shown.
    pub fn to_string(&self) -> (text: String)
        ensures
            text@ == shown(self.parent_spec().text_spec(), self.id_spec().0),
    {
        let mut text = String::from_str("(target: `");
        let target = self.parent.to_string();
        text.append(target.as_str());
        text.append("`, id: `");
        let digits = u64_to_decimal(self.id.0 as u64);
        text.append(digits.as_str());
        text.append("`)");
        text
    }

    /// The key as text.
    pub fn action_key(&self) -> (text: String)
        ensures
            text@ == action_key_text(self.parent_spec().action_key_spec(), self.id_spec().0),
    {
        let mut v = match self.parent.action_key() {
            Some(v) => String::from_str(v),
            None => String::new(),
        };
        v.append("_");
        let digits = u64_to_decimal(self.id.0 as u64);
        v.append(digits.as_str());
        v
    }
}

} // verus!
