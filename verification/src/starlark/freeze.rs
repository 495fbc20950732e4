//! Freezing: turning a value that an evaluation can still change into one
//! that stays as it is. A type can name a validator, which looks at the
//! value before it is frozen for good and can refuse it.

use vstd::prelude::*;

verus! {

/// Where frozen values live.
pub struct FrozenHeap {
    /// How many values were frozen into the heap.
    pub frozen: usize,
}

impl FrozenHeap {
    pub fn new() -> (heap: Self)
        ensures
            heap.frozen == 0,
    {
        FrozenHeap { frozen: 0 }
    }
}

/// Freezes values into a heap.
pub struct Freezer<'a> {
    pub heap: &'a FrozenHeap,
}

impl<'a> Freezer<'a> {
    pub fn new(heap: &'a FrozenHeap) -> (freezer: Self)
        ensures
            *freezer.heap == *heap,
    {
        Freezer { heap }
    }
}

/// A value was refused by the validator of its type.
pub struct FreezeError {
    pub message: String,
}

impl FreezeError {
    pub fn new(message: &str) -> (e: Self)
        ensures
            e.message@ == message@,
    {
        FreezeError { message: String::from_str(message) }
    }
}

/// A value that can be frozen.
pub trait Freeze: Sized {
    type Frozen;

    fn freeze(self, freezer: &Freezer<'_>) -> Result<Self::Frozen, FreezeError>;
}

impl Freeze for bool {
    type Frozen = bool;

    fn freeze(self, _freezer: &Freezer<'_>) -> (frozen: Result<bool, FreezeError>)
        ensures
            frozen == Ok::<bool, FreezeError>(self),
    {
        Ok(self)
    }
}

/// Lets the validator of a type look at a value whose fields were frozen:
/// the value is handed on if the validator has nothing against it, and the
/// error of the validator else.
pub fn validated<T, F>(frozen: T, validator: F) -> (result: Result<T, FreezeError>)
    where
        F: FnOnce(&T) -> Result<(), FreezeError>,
    requires
        validator.requires((&frozen,)),
    ensures
        match result {
            Ok(value) => value == frozen && validator.ensures((&frozen,), Ok::<(), FreezeError>(())),
            Err(e) => validator.ensures((&frozen,), Err(e)),
        },
{
    let verdict = validator(&frozen);
    match verdict {
        Ok(_) => {
            assert(verdict->Ok_0 == ());
            Ok(frozen)
        },
        Err(e) => Err(e),
    }
}

} // verus!
