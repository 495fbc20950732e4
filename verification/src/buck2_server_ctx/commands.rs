//! The events that close a command.

use vstd::prelude::*;

use crate::buck2_error::error::Error;
use crate::text::all_differ;
use crate::text::insert_unique;
use crate::text::lists;

verus! {

/// How a build went.
pub struct BuildResult {
    pub build_completed: bool,
}

/// The event at the end of a command.
pub struct CommandEnd<D> {
    pub data: Option<D>,
    pub build_result: Option<BuildResult>,
}

/// Common code executed in the end of command to produce `CommandEnd`.
pub fn command_end<R, D>(result: &Result<R, Error>, data: D) -> (end: CommandEnd<D>)
    ensures
        end.data == Some(data),
        end.build_result is None,
{
    CommandEnd { data: Some(data), build_result: None }
}

/// The event at the end of a command that builds: if the command went well,
/// `build_result` says of its result how the build went.
pub fn command_end_ext<R, D, F>(
    result: &Result<R, Error>,
    data: D,
    build_result: F,
) -> (end: CommandEnd<D>)
    where
        F: FnOnce(&R) -> Option<BuildResult>,
    requires
        result matches Ok(r) ==> build_result.requires((&r,)),
    ensures
        end.data == Some(data),
        match *result {
            Ok(r) => build_result.ensures((&r,), end.build_result),
            Err(_) => end.build_result is None,
        },
{
    CommandEnd {
        data: Some(data),
        build_result: match result {
            Ok(r) => build_result(r),
            Err(_) => None,
        },
    }
}

/// How the targets of a command were configured.
pub struct TargetCfg {
    pub target_platforms: Vec<String>,
    pub cli_modifiers: Vec<String>,
}

/// Whether the label at position `i` is `t`.
pub open spec fn is_label(labels: Seq<Option<String>>, i: int, t: Seq<char>) -> bool {
    0 <= i < labels.len() && labels[i] is Some && labels[i]->0@ == t
}

/// Whether `t` is one of the labels.
pub open spec fn names(labels: Seq<Option<String>>, t: Seq<char>) -> bool {
    exists|i: int| is_label(labels, i, t)
}

/// Whether `found` lists exactly the labels that are in `labels`.
pub open spec fn are_labels_of(labels: Seq<Option<String>>, found: Seq<String>) -> bool {
    forall|t: Seq<char>| lists(found, t) <==> names(labels, t)
}

/// What one more label adds to the labels.
proof fn lemma_names_push(seen: Seq<Option<String>>, conf: Option<String>, t: Seq<char>)
    ensures
        names(seen.push(conf), t) <==> names(seen, t) || (conf is Some && conf->0@ == t),
{
    let next = seen.push(conf);
    if names(seen, t) {
        let i = choose|i: int| is_label(seen, i, t);
        assert(is_label(next, i, t));
    }
    if conf is Some && conf->0@ == t {
        assert(is_label(next, seen.len() as int, t));
    }
    if names(next, t) {
        let i = choose|i: int| is_label(next, i, t);
        if i < seen.len() {
            assert(is_label(seen, i, t));
        }
    }
}

/// The event that tells how the targets of a command were configured: each
/// platform that a target was configured for, once, and the modifiers of the
/// command. A target whose configuration is not bound has no platform and is
/// given as none.
pub fn send_target_cfg_event(
    conf_labels: Vec<Option<String>>,
    cli_modifiers: Option<Vec<String>>,
) -> (event: TargetCfg)
    ensures
        all_differ(event.target_platforms@),
        are_labels_of(conf_labels@, event.target_platforms@),
        match cli_modifiers {
            Some(modifiers) => event.cli_modifiers == modifiers,
            None => event.cli_modifiers@.len() == 0,
        },
{
    let ghost all = conf_labels@;
    let mut target_platforms: Vec<String> = Vec::new();
    proof {
        assert forall|t: Seq<char>| !names(all.take(0), t) by {
            if names(all.take(0), t) {
                let i = choose|i: int| is_label(all.take(0), i, t);
            }
        }
    }
    for conf in it: conf_labels
        invariant
            it.seq() == all,
            all_differ(target_platforms@),
            are_labels_of(all.take(it.index() as int), target_platforms@),
    {
        let ghost before = target_platforms@;
        let ghost seen = all.take(it.index() as int);
        let ghost next = all.take(it.index() + 1);
        proof {
            assert(next =~= seen.push(conf));
            assert forall|t: Seq<char>|
                names(next, t) <==> names(seen, t) || (conf is Some && conf->0@ == t) by {
                lemma_names_push(seen, conf, t);
            }
        }
        // cfg can be unbound
        match conf {
            Some(label) => {
                insert_unique(&mut target_platforms, label);
            },
            None => {},
        }
    }
    proof {
        assert(all.take(all.len() as int) =~= all);
    }
    let cli_modifiers = match cli_modifiers {
        Some(modifiers) => modifiers,
        None => Vec::new(),
    };
    TargetCfg { target_platforms, cli_modifiers }
}

} // verus!
