//! What owns the things that an analysis registers for later.

use std::sync::Arc;

use vstd::prelude::*;

verus! {

/// The owner of deferred things: a target, an anonymous target or a bxl
/// function, each named by its label.
pub enum BaseDeferredKey {
    TargetLabel(String),
    AnonTarget(String),
    BxlLabel(String),
}

impl BaseDeferredKey {
    /// The label of the owner.
    pub open spec fn label_spec(&self) -> Seq<char> {
        match *self {
            BaseDeferredKey::TargetLabel(label) => label@,
            BaseDeferredKey::AnonTarget(label) => label@,
            BaseDeferredKey::BxlLabel(label) => label@,
        }
    }

    /// The label of the owner.
    pub fn label(&self) -> (label: &str)
        ensures
            label@ == self.label_spec(),
    {
        match self {
            BaseDeferredKey::TargetLabel(label) => label.as_str(),
            BaseDeferredKey::AnonTarget(label) => label.as_str(),
            BaseDeferredKey::BxlLabel(label) => label.as_str(),
        }
    }
}

/// The results of a dynamic action.
pub struct DynamicLambdaResultsKey {
    pub owner: BaseDeferredKey,
    /// Tells the dynamic actions of one owner apart.
    pub action_key: String,
}

/// What holds deferred things: an owner itself, or a dynamic action of an
/// owner.
pub enum DeferredHolderKey {
    Base(BaseDeferredKey),
    DynamicLambda(Arc<DynamicLambdaResultsKey>),
}

impl DeferredHolderKey {
    pub open spec fn owner_spec(&self) -> BaseDeferredKey {
        match *self {
            DeferredHolderKey::Base(base) => base,
            DeferredHolderKey::DynamicLambda(lambda) => lambda.owner,
        }
    }

    pub open spec fn action_key_spec(&self) -> Option<Seq<char>> {
        match *self {
            DeferredHolderKey::Base(_) => None,
            DeferredHolderKey::DynamicLambda(lambda) => Some(lambda.action_key@),
        }
    }

    pub fn owner(&self) -> (owner: &BaseDeferredKey)
        ensures
            *owner == self.owner_spec(),
    {
        match self {
            DeferredHolderKey::Base(base) => base,
            DeferredHolderKey::DynamicLambda(lambda) => &lambda.owner,
        }
    }

    /// The holder as text: the label of its owner, and for a dynamic action
    /// an underscore and its key after it.
    pub open spec fn text_spec(&self) -> Seq<char> {
        match self.action_key_spec() {
            Some(key) => self.owner_spec().label_spec() + "_"@ + key,
            None => self.owner_spec().label_spec(),
        }
    }

    /// The holder as text.
    pub fn to_string(&self) -> (text: String)
        ensures
            text@ == self.text_spec(),
    {
        let mut text = String::from_str(self.owner().label());
        match self.action_key() {
            Some(key) => {
                text.append("_");
                text.append(key);
            },
            None => {},
        }
        text
    }

    /// The key that tells this holder apart from the other holders of its
    /// owner; none for the owner itself.
    pub fn action_key(&self) -> (key: Option<&str>)
        ensures
            key is Some == self.action_key_spec() is Some,
            key matches Some(text) ==> text@ == self.action_key_spec()->0,
    {
        match self {
            DeferredHolderKey::Base(_) => None,
            DeferredHolderKey::DynamicLambda(lambda) => Some(lambda.action_key.as_str()),
        }
    }
}

} // verus!
