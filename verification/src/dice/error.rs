//! The mistakes that a caller of the transaction interface can make.

use vstd::prelude::*;

use crate::dice::key::Key;

verus! {

pub enum DiceError<K: Key> {
    /// The key was registered as changed twice in one transaction.
    DuplicateChange(K),
    /// A key whose value is injected was asked to be computed anew.
    InjectedKeyInvalidated(K),
}

impl<K: Key> DiceError<K> {
    /// The key that the mistake was made with.
    pub fn key(&self) -> (key: &K)
        ensures
            match *self {
                DiceError::DuplicateChange(k) => *key == k,
                DiceError::InjectedKeyInvalidated(k) => *key == k,
            },
    {
        match self {
            DiceError::DuplicateChange(k) => k,
            DiceError::InjectedKeyInvalidated(k) => k,
        }
    }

    pub fn is_duplicate(&self) -> (b: bool)
        ensures
            b == (*self is DuplicateChange),
    {
        match self {
            DiceError::DuplicateChange(_) => true,
            _ => false,
        }
    }

    pub fn is_injected_key_invalidated(&self) -> (b: bool)
        ensures
            b == (*self is InjectedKeyInvalidated),
    {
        match self {
            DiceError::InjectedKeyInvalidated(_) => true,
            _ => false,
        }
    }

    /// The mistake in words.
    pub fn message(&self) -> (text: &'static str)
        ensures
            text@ == (match *self {
                DiceError::DuplicateChange(_) => "Key was reported as changed multiple times"@,
                DiceError::InjectedKeyInvalidated(_) => "Key of injected storage was invalidated"@,
            }),
    {
        match self {
            DiceError::DuplicateChange(_) => "Key was reported as changed multiple times",
            DiceError::InjectedKeyInvalidated(_) => "Key of injected storage was invalidated",
        }
    }
}

} // verus!
