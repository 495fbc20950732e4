use buck2_engine::starlark::freeze::validated;
use buck2_engine::starlark::freeze::Freeze;
use buck2_engine::starlark::freeze::FreezeError;
use buck2_engine::starlark::freeze::Freezer;
use buck2_engine::starlark::freeze::FrozenHeap;

struct Test {
    field: bool,
}

// a type with a validator freezes its fields and then lets the validator look at the result
impl Freeze for Test {
    type Frozen = Test;

    fn freeze(self, freezer: &Freezer<'_>) -> Result<Test, FreezeError> {
        let frozen = Test { field: self.field.freeze(freezer)? };
        validated(frozen, check_true)
    }
}

fn check_true(test: &Test) -> Result<(), FreezeError> {
    if !test.field {
        return Err(FreezeError::new("Err"));
    }

    Ok(())
}

#[test]
fn test_ok() {
    let t = Test { field: true };
    let frozen_heap = FrozenHeap::new();
    let freezer = Freezer::new(&frozen_heap);
    assert!(matches!(t.freeze(&freezer), Ok(Test { field: true })));
}

#[test]
fn test_fail() {
    let t = Test { field: false };
    let frozen_heap = FrozenHeap::new();
    let freezer = Freezer::new(&frozen_heap);
    assert!(t.freeze(&freezer).is_err());
}

#[test]
fn validator_error_is_handed_on() {
    let refused = validated(3, |_: &i32| Err(FreezeError::new("no")));
    assert!(matches!(refused, Err(e) if e.message == "no"));
    assert!(matches!(validated(3, |_: &i32| Ok(())), Ok(3)));
}
