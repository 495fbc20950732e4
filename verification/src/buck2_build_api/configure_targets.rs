//! Sorting the targets of a build by whether they fit the platform they are
//! built for.

use vstd::prelude::*;

use crate::buck2_error::error::Error;
use crate::text::insert_unique;
use crate::text::lists;

verus! {

/// A target that was configured, if it fits the platform; else the label of
/// the target that does not fit.
pub enum MaybeCompatible {
    Incompatible(String),
    Compatible(String),
}

/// `listed` with `text` added unless it is listed.
pub open spec fn with_unique(listed: Seq<String>, text: String) -> Seq<String> {
    if lists(listed, text@) {
        listed
    } else {
        listed.push(text)
    }
}

/// The compatible and the incompatible targets among `targets`, each listed
/// once in the order in which they first come, added to those collected
/// before; or the first error among `targets`.
pub open spec fn split(
    targets: Seq<Result<MaybeCompatible, Error>>,
    compatible: Seq<String>,
    incompatible: Seq<String>,
) -> Result<(Seq<String>, Seq<String>), Error>
    decreases targets.len(),
{
    if targets.len() == 0 {
        Ok((compatible, incompatible))
    } else {
        match targets[0] {
            Err(e) => Err(e),
            Ok(MaybeCompatible::Incompatible(target)) => split(
                targets.drop_first(),
                compatible,
                with_unique(incompatible, target),
            ),
            Ok(MaybeCompatible::Compatible(target)) => split(
                targets.drop_first(),
                with_unique(compatible, target),
                incompatible,
            ),
        }
    }
}

/// Returns a tuple of compatible and incompatible targets.
pub fn split_compatible_incompatible(
    targets: Vec<Result<MaybeCompatible, Error>>,
) -> (result: Result<(Vec<String>, Vec<String>), Error>)
    ensures
        match split(targets@, Seq::empty(), Seq::empty()) {
            Ok(sets) => result matches Ok(found) && found.0@ == sets.0 && found.1@ == sets.1,
            Err(e) => result == Err::<(Vec<String>, Vec<String>), Error>(e),
        },
{
    let ghost all = targets@;
    let mut target_set: Vec<String> = Vec::new();
    let mut incompatible_targets: Vec<String> = Vec::new();
    proof {
        assert(all.skip(0) =~= all);
    }
    for res in it: targets
        invariant
            it.seq() == all,
            all == targets@,
            split(all, Seq::empty(), Seq::empty()) == split(
                all.skip(it.index() as int),
                target_set@,
                incompatible_targets@,
            ),
    {
        proof {
            let rest = all.skip(it.index() as int);
            assert(rest[0] == res);
            assert(rest.drop_first() =~= all.skip(it.index() + 1));
        }
        match res {
            Err(e) => {
                return Err(e);
            },
            Ok(MaybeCompatible::Incompatible(target)) => {
                insert_unique(&mut incompatible_targets, target);
            },
            Ok(MaybeCompatible::Compatible(target)) => {
                insert_unique(&mut target_set, target);
            },
        }
    }
    Ok((target_set, incompatible_targets))
}

/// How targets are configured.
pub struct GlobalCfgOptions {
    pub target_platform: Option<String>,
    pub cli_modifiers: Vec<String>,
}

/// A pattern with the modifiers that were written behind it, if any were.
pub struct ParsedPatternWithModifiers {
    pub parsed_pattern: String,
    pub modifiers: Option<Vec<String>>,
}

/// Modifiers were given both for all patterns and behind a pattern.
#[derive(Clone, Copy, Debug, PartialEq, Eq, Structural)]
pub struct ModifiersConflict;

impl ModifiersConflict {
    pub fn message(&self) -> (text: &'static str)
        ensures
            text@
                == "Cannot specify modifiers with ?modifier syntax when global CLI modifiers are set with --modifier flag"@,
    {
        "Cannot specify modifiers with ?modifier syntax when global CLI modifiers are set with --modifier flag"
    }
}

/// Whether one of the patterns has modifiers of its own.
pub open spec fn any_has_modifiers(patterns: Seq<ParsedPatternWithModifiers>) -> bool {
    exists|i: int| 0 <= i < patterns.len() && (#[trigger] patterns[i]).modifiers is Some
}

/// Modifiers behind a pattern cannot be mixed with modifiers for all
/// patterns.
pub fn check_modifiers(
    global_cfg_options: &GlobalCfgOptions,
    parsed_patterns_with_modifiers: &Vec<ParsedPatternWithModifiers>,
) -> (result: Result<(), ModifiersConflict>)
    ensures
        result is Err <==> global_cfg_options.cli_modifiers@.len() > 0 && any_has_modifiers(
            parsed_patterns_with_modifiers@,
        ),
{
    if global_cfg_options.cli_modifiers.len() > 0 {
        let mut i: usize = 0;
        while i < parsed_patterns_with_modifiers.len()
            invariant
                i <= parsed_patterns_with_modifiers@.len(),
                global_cfg_options.cli_modifiers@.len() > 0,
                forall|j: int|
                    0 <= j < i ==> (#[trigger] parsed_patterns_with_modifiers@[j]).modifiers
                        is None,
            decreases parsed_patterns_with_modifiers@.len() - i,
        {
            if parsed_patterns_with_modifiers[i].modifiers.is_some() {
                proof {
                    assert(parsed_patterns_with_modifiers@[i as int].modifiers is Some);
                }
                return Err(ModifiersConflict);
            }
            i = i + 1;
        }
    }
    Ok(())
}

/// How the targets of one pattern are configured: with the modifiers of the
/// pattern where it has some, else as all are.
pub fn local_cfg_options(
    global_cfg_options: &GlobalCfgOptions,
    modifiers: &Option<Vec<String>>,
) -> (local: GlobalCfgOptions)
    ensures
        local.target_platform == global_cfg_options.target_platform,
        local.cli_modifiers@.len() == (match *modifiers {
            Some(own) => own@.len(),
            None => global_cfg_options.cli_modifiers@.len(),
        }),
        forall|i: int|
            0 <= i < local.cli_modifiers@.len() ==> (#[trigger] local.cli_modifiers@[i])@
                == (match *modifiers {
                Some(own) => own@[i]@,
                None => global_cfg_options.cli_modifiers@[i]@,
            }),
{
    let source = match modifiers {
        Some(own) => own,
        None => &global_cfg_options.cli_modifiers,
    };
    let mut cli_modifiers: Vec<String> = Vec::new();
    let mut i: usize = 0;
    while i < source.len()
        invariant
            i <= source@.len(),
            cli_modifiers@.len() == i,
            forall|j: int| 0 <= j < i ==> (#[trigger] cli_modifiers@[j])@ == source@[j]@,
        decreases source@.len() - i,
    {
        cli_modifiers.push(source[i].clone());
        i = i + 1;
    }
    GlobalCfgOptions { target_platform: global_cfg_options.target_platform.clone(), cli_modifiers }
}

/// The targets of the packages that were loaded, in their order, with those
/// listed before; or the first error of a package, unless the build is to
/// keep going, in which case packages that failed to load are left out.
pub open spec fn loaded_targets(
    loaded: Seq<Result<Vec<String>, Error>>,
    keep_going: bool,
    listed: Seq<String>,
) -> Result<Seq<String>, Error>
    decreases loaded.len(),
{
    if loaded.len() == 0 {
        Ok(listed)
    } else {
        match loaded[0] {
            Ok(targets) => loaded_targets(loaded.drop_first(), keep_going, listed + targets@),
            Err(e) => if keep_going {
                loaded_targets(loaded.drop_first(), keep_going, listed)
            } else {
                Err(e)
            },
        }
    }
}

/// The targets that are to be configured, from what loading the packages
/// gave.
pub fn get_maybe_compatible_targets(
    loaded_targets: Vec<Result<Vec<String>, Error>>,
    keep_going: bool,
) -> (result: Result<Vec<String>, Error>)
    ensures
        match self::loaded_targets(loaded_targets@, keep_going, Seq::empty()) {
            Ok(targets) => result matches Ok(found) && found@ == targets,
            Err(e) => result == Err::<Vec<String>, Error>(e),
        },
{
    let ghost all = loaded_targets@;
    let mut targets: Vec<String> = Vec::new();
    proof {
        assert(all.skip(0) =~= all);
    }
    for result in it: loaded_targets
        invariant
            it.seq() == all,
            all == loaded_targets@,
            self::loaded_targets(all, keep_going, Seq::empty()) == self::loaded_targets(
                all.skip(it.index() as int),
                keep_going,
                targets@,
            ),
    {
        proof {
            let rest = all.skip(it.index() as int);
            assert(rest[0] == result);
            assert(rest.drop_first() =~= all.skip(it.index() + 1));
        }
        match result {
            Ok(mut found) => {
                let ghost before = targets@;
                let ghost added = found@;
                targets.append(&mut found);
                proof {
                    assert(targets@ =~= before + added);
                }
            },
            Err(e) => {
                if !keep_going {
                    return Err(e);
                }
            },
        }
    }
    Ok(targets)
}

/// The targets of all the sets, each once, in the order in which they first
/// come.
pub open spec fn merged(sets: Seq<Vec<String>>, listed: Seq<String>) -> Seq<String>
    decreases sets.len(),
{
    if sets.len() == 0 {
        listed
    } else {
        merged(sets.drop_first(), all_unique(sets[0]@, listed))
    }
}

/// `listed` with each of `targets` added unless it is listed.
pub open spec fn all_unique(targets: Seq<String>, listed: Seq<String>) -> Seq<String>
    decreases targets.len(),
{
    if targets.len() == 0 {
        listed
    } else {
        all_unique(targets.drop_first(), with_unique(listed, targets[0]))
    }
}

/// Puts the targets that the patterns gave into one set.
pub fn merge_target_sets(compatible_patterns: Vec<Vec<String>>) -> (final_target_set: Vec<String>)
    ensures
        final_target_set@ == merged(compatible_patterns@, Seq::empty()),
{
    let ghost all = compatible_patterns@;
    let mut final_target_set: Vec<String> = Vec::new();
    proof {
        assert(all.skip(0) =~= all);
    }
    for set in outer: compatible_patterns
        invariant
            outer.seq() == all,
            merged(all, Seq::empty()) == merged(all.skip(outer.index() as int), final_target_set@),
    {
        let ghost these = set@;
        proof {
            let rest = all.skip(outer.index() as int);
            assert(rest[0] == set);
            assert(rest.drop_first() =~= all.skip(outer.index() + 1));
            assert(these.skip(0) =~= these);
        }
        let ghost start = final_target_set@;
        for target in inner: set
            invariant
                inner.seq() == these,
                all_unique(these, start) == all_unique(
                    these.skip(inner.index() as int),
                    final_target_set@,
                ),
        {
            proof {
                let rest = these.skip(inner.index() as int);
                assert(rest[0] == target);
                assert(rest.drop_first() =~= these.skip(inner.index() + 1));
            }
            insert_unique(&mut final_target_set, target);
        }
    }
    final_target_set
}

} // verus!
