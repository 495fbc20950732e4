//! What holds of the graph whatever is done to it.

use std::sync::Arc;

use vstd::prelude::*;

use crate::dice::graph::history::NodeView;
use crate::dice::graph::history::entry_at;
use crate::dice::graph::history::leading_below;
use crate::dice::graph::history::lemma_entry_at_is_the_record;
use crate::dice::graph::history::lemma_leading_below;
use crate::dice::graph::history::lemma_leading_below_is;
use crate::dice::graph::history::lemma_next_dirty;
use crate::dice::graph::history::lemma_truncated;
use crate::dice::graph::history::lemma_truncated_keeps_earlier;
use crate::dice::graph::history::truncated;
use crate::dice::graph::model::affected;
use crate::dice::graph::model::continues;
use crate::dice::graph::model::lemma_valid_until;
use crate::dice::graph::model::valid_until;
use crate::dice::graph::model::updated;
use crate::dice::graph::model::cut_all;
use crate::dice::graph::model::depends;
use crate::dice::graph::model::dirtied_by;
use crate::dice::graph::model::graph_wf;
use crate::dice::graph::model::grown;
use crate::dice::graph::model::installed;
use crate::dice::graph::model::invalidated;
use crate::dice::graph::model::is_injected;
use crate::dice::graph::model::lemma_affected;
use crate::dice::graph::model::lemma_affected_settles;
use crate::dice::graph::model::lemma_invalidated_wf;
use crate::dice::graph::model::node_of;
use crate::dice::graph::model::recorded;
use crate::dice::graph::model::step;
use crate::dice::graph::model::with_note;
use crate::dice::graph::types::InvalidateKind;
use crate::dice::graph::types::ValueReusable;
use crate::dice::graph::types::VersionedGraphKey;
use crate::dice::key::DiceKey;
use crate::dice::key::InvalidationSourcePriority;
use crate::dice::key::Key;
use crate::dice::key::StorageType;
use crate::dice::value::TrackedInvalidationPaths;
use crate::dice::versions::VersionNumber;
use crate::dice::versions::VersionRange;
use crate::dice::versions::among;

verus! {

/// How many keys are marked.
pub open spec fn marked(flags: Seq<bool>) -> nat
    decreases flags.len(),
{
    if flags.len() == 0 {
        0
    } else {
        marked(flags.drop_last()) + if flags.last() {
            1nat
        } else {
            0nat
        }
    }
}

/// Marks that hold all of some other marks, and are not the same, are more.
pub proof fn lemma_more_marks(fewer: Seq<bool>, more: Seq<bool>)
    requires
        fewer.len() == more.len(),
        forall|i: int| 0 <= i < fewer.len() && fewer[i] ==> more[i],
    ensures
        marked(fewer) <= marked(more) <= more.len(),
        fewer != more ==> marked(fewer) < marked(more),
    decreases fewer.len(),
{
    if fewer.len() > 0 {
        let f = fewer.drop_last();
        let m = more.drop_last();
        assert forall|i: int| 0 <= i < f.len() && f[i] implies m[i] by {
            assert(f[i] == fewer[i] && m[i] == more[i]);
        }
        lemma_more_marks(f, m);
        assert(fewer.last() ==> more.last());
        if f == m && fewer.last() == more.last() {
            assert forall|i: int| 0 <= i < fewer.len() implies fewer[i] == more[i] by {
                if i < f.len() {
                    assert(f[i] == fewer[i] && m[i] == more[i]);
                }
            }
            assert(fewer =~= more);
        }
    } else {
        assert(fewer =~= more);
    }
}

/// After `rounds` rounds either some round has marked nothing new, or more
/// than `rounds` keys are marked.
proof fn lemma_rounds_mark_or_settle<K: Key>(
    graph: Seq<NodeView<K>>,
    root: DiceKey,
    v: VersionNumber,
    rounds: nat,
)
    requires
        root.index < graph.len(),
    ensures
        (exists|settled: nat|
            settled <= rounds && #[trigger] step(graph, affected(graph, root, v, settled), v)
                == affected(graph, root, v, settled)) || marked(affected(graph, root, v, rounds))
            > rounds,
    decreases rounds,
{
    lemma_affected(graph, root, v, rounds);
    let now = affected(graph, root, v, rounds);
    if rounds == 0 {
        let none = Seq::new(graph.len(), |i: int| false);
        lemma_more_marks(none, now);
        assert(none != now) by {
            assert(now[root.index as int]);
            assert(!none[root.index as int]);
        }
    } else {
        let before = affected(graph, root, v, (rounds - 1) as nat);
        lemma_rounds_mark_or_settle(graph, root, v, (rounds - 1) as nat);
        lemma_affected(graph, root, v, (rounds - 1) as nat);
        if exists|settled: nat|
            settled <= rounds - 1 && #[trigger] step(graph, affected(graph, root, v, settled), v)
                == affected(graph, root, v, settled) {
            let settled = choose|settled: nat|
                settled <= rounds - 1 && #[trigger] step(
                    graph,
                    affected(graph, root, v, settled),
                    v,
                ) == affected(graph, root, v, settled);
            assert(settled <= rounds);
        } else if before == now {
            assert(step(graph, before, v) == before);
            assert((rounds - 1) as nat <= rounds);
        } else {
            lemma_more_marks(before, now);
        }
    }
}

/// The keys that an invalidation reaches are closed under dependency: a
/// further round marks nothing new. So every key that was computed, through
/// however many keys, from a key that the invalidation reaches is reached
/// too.
pub proof fn lemma_dirtied_by_is_closed<K: Key>(
    graph: Seq<NodeView<K>>,
    root: DiceKey,
    v: VersionNumber,
)
    requires
        root.index < graph.len(),
    ensures
        step(graph, dirtied_by(graph, root, v), v) == dirtied_by(graph, root, v),
        dirtied_by(graph, root, v)[root.index as int],
        forall|i: int|
            0 <= i < graph.len() && depends(graph[i], dirtied_by(graph, root, v), v)
                ==> #[trigger] dirtied_by(graph, root, v)[i],
{
    let n = graph.len();
    lemma_rounds_mark_or_settle(graph, root, v, n);
    lemma_affected(graph, root, v, n);
    let all = dirtied_by(graph, root, v);
    lemma_more_marks(all, all);
    let settled = choose|settled: nat|
        settled <= n && #[trigger] step(graph, affected(graph, root, v, settled), v) == affected(
            graph,
            root,
            v,
            settled,
        );
    lemma_affected_settles(graph, root, v, settled, n);
    assert forall|i: int| 0 <= i < graph.len() && depends(graph[i], all, v) implies #[trigger] all[i] by {
        assert(step(graph, all, v)[i]);
    }
}

/// The value that `k` has at `w`, if it has one.
pub open spec fn value_at<K: Key>(graph: Seq<NodeView<K>>, k: DiceKey, w: VersionNumber) -> Option<
    Arc<K::Value>,
> {
    match entry_at(node_of(graph, k).history, w) {
        Some(entry) => Some(entry.value),
        None => None,
    }
}

/// A reader at a version never sees what is committed at a later version: an
/// invalidation at `key.v` leaves every key with the value that it had at
/// each earlier version.
#[verifier::rlimit(50)]
pub proof fn lemma_invalidation_keeps_earlier_versions<K: Key>(
    graph: Seq<NodeView<K>>,
    key: VersionedGraphKey,
    kind: InvalidateKind<K>,
    priority: InvalidationSourcePriority,
    equal: bool,
    k: DiceKey,
    w: VersionNumber,
)
    requires
        graph_wf(graph),
        w.0 < key.v.0,
    ensures
        value_at(invalidated(graph, key, kind, priority, equal).0, k, w) == value_at(graph, k, w),
{
    let after = invalidated(graph, key, kind, priority, equal).0;
    let g = grown(graph, key.k);
    let flags = dirtied_by(g, key.k, key.v);
    lemma_affected(g, key.k, key.v, g.len());
    lemma_leading_below(NodeView::<K>::blank().history, w.0 + 1);
    let before = node_of(graph, k);
    assert(node_of(g, k) == before);
    if k.index < g.len() {
        assert(before.wf()) by {
            if k.index < graph.len() {
                assert(graph[k.index as int].wf());
            }
        }
        lemma_truncated_keeps_earlier(before.history, key.v, w);
        let cut = cut_all(g, flags, key.k, key.v, priority);
        let spread = with_note(cut, key);
        assert(entry_at(cut[k.index as int].history, w) is Some == entry_at(before.history, w)
            is Some);
        assert(value_at(cut, k, w) == value_at(graph, k, w));
        assert(spread[k.index as int].history == cut[k.index as int].history);
        match kind {
            InvalidateKind::ForceDirty => {},
            InvalidateKind::Update(value, storage) => {
                if k == key.k {
                    let root = k.index as int;
                    let h = spread[root].history;
                    let inst = installed(spread, key, value, storage);
                    let h2 = inst[root].history;
                    assert(flags[root]);
                    lemma_truncated(before.history, key.v);
                    lemma_leading_below(h, w.0 + 1);
                    lemma_leading_below(h2, w.0 + 1);
                    let q = leading_below(h, w.0 + 1);
                    assert forall|i: int| 0 <= i < q implies (#[trigger] h2[i]).valid.begin.0 < w.0
                        + 1 by {
                        assert(h2[i] == h[i]);
                    }
                    assert(h2[q].valid.begin.0 >= w.0 + 1) by {
                        if q < h.len() {
                            assert(h2[q] == h[q]);
                        }
                    }
                    lemma_leading_below_is(h2, w.0 + 1, q);
                    if q > 0 {
                        assert(h2[q - 1] == h[q - 1]);
                    }
                }
            },
        }
    }
}

/// What an invalidation that changes something does to the key itself: if
/// the key was forced dirty, it has no value from `key.v` on; if a value was
/// brought, the key has that value at `key.v`.
#[verifier::rlimit(50)]
pub proof fn lemma_invalidation_takes_effect<K: Key>(
    graph: Seq<NodeView<K>>,
    key: VersionedGraphKey,
    kind: InvalidateKind<K>,
    priority: InvalidationSourcePriority,
    equal: bool,
    w: VersionNumber,
)
    requires
        graph_wf(graph),
        invalidated(graph, key, kind, priority, equal).1,
        w.0 >= key.v.0,
    ensures
        kind is ForceDirty ==> value_at(
            invalidated(graph, key, kind, priority, equal).0,
            key.k,
            w,
        ) is None,
        kind matches InvalidateKind::Update(value, _) ==> value_at(
            invalidated(graph, key, kind, priority, equal).0,
            key.k,
            key.v,
        ) == Some(value),
{
    let g = grown(graph, key.k);
    let flags = dirtied_by(g, key.k, key.v);
    lemma_affected(g, key.k, key.v, g.len());
    lemma_invalidated_wf(graph, key, kind, priority, equal);
    let root = key.k.index as int;
    assert(flags[root]);
    assert(g[root].wf()) by {
        if root < graph.len() {
            assert(graph[root].wf());
        }
    }
    lemma_truncated(g[root].history, key.v);
    let cut = cut_all(g, flags, key.k, key.v, priority);
    let spread = with_note(cut, key);
    assert(spread[root].history == truncated(g[root].history, key.v));
    match kind {
        InvalidateKind::ForceDirty => {},
        InvalidateKind::Update(value, storage) => {
            let inst = installed(spread, key, value, storage);
            let h2 = inst[root].history;
            lemma_next_dirty(spread[root].dirtied, key.v);
            assert(graph_wf(inst));
            assert(inst[root].wf());
            assert(h2.last().valid.contains_spec(key.v));
            lemma_entry_at_is_the_record(h2, key.v, h2.len() - 1);
        },
    }
}

/// Early cutoff: a value that continues the record before the version makes
/// no new record, also where that record ended earlier than the version. The
/// record keeps the value that it had and is reported as not new. It is then
/// known to hold at the version, up to `until`, and at every version at which
/// it was known to hold; the versions between the end of the record and the
/// version stay outside.
pub proof fn lemma_early_cutoff<K: Key>(
    node: NodeView<K>,
    v: VersionNumber,
    value: Arc<K::Value>,
    reusable: ValueReusable,
    equal: bool,
    until: Option<VersionNumber>,
    deps: Seq<DiceKey>,
    storage: StorageType,
    invalidation_paths: TrackedInvalidationPaths,
)
    requires
        node.wf(),
        entry_at(node.history, v) is None,
        leading_below(node.history, v.0 + 1) > 0,
        continues(node.history[leading_below(node.history, v.0 + 1) - 1], v, reusable, equal),
        until matches Some(e) ==> e.0 > v.0,
    ensures
        ({
            let p = leading_below(node.history, v.0 + 1);
            let r = recorded(
                node,
                v,
                value,
                reusable,
                equal,
                until,
                deps,
                storage,
                invalidation_paths,
            );
            &&& !r.2
            &&& r.0.history.len() == node.history.len()
            &&& r.1.value == node.history[p - 1].value
            &&& r.1.valid.end == until
            &&& r.0.history[p - 1] == r.1
            &&& forall|w: VersionNumber|
                r.1.versions().contains_spec(w) <==> (node.history[p - 1].versions().contains_spec(w)
                    || (VersionRange { begin: v, end: until }).contains_spec(w))
        }),
{
    lemma_leading_below(node.history, v.0 + 1);
    let previous = node.history[leading_below(node.history, v.0 + 1) - 1];
    assert(previous.valid.well_formed());
    let r = recorded(node, v, value, reusable, equal, until, deps, storage, invalidation_paths);
    assert forall|w: VersionNumber|
        r.1.versions().contains_spec(w) <==> (previous.versions().contains_spec(w) || (VersionRange {
            begin: v,
            end: until,
        }).contains_spec(w)) by {
        if previous.valid.end != Some(v) {
            assert(among(r.1.earlier, w) == previous.versions().contains_spec(w));
        }
    }
}

/// Early cutoff in the graph: where the value that is recorded for a key
/// continues the record that the key had last before the version, the answer
/// is that record's own value, reported as not new, and the key has as many
/// records as before. The value is then known to hold at the version and at
/// every version at which it was known to hold, and at no other version
/// before the version.
pub proof fn lemma_equal_value_continues_the_record<K: Key>(
    graph: Seq<NodeView<K>>,
    key: VersionedGraphKey,
    value: Arc<K::Value>,
    reusable: ValueReusable,
    equal: bool,
    deps: Seq<DiceKey>,
    storage: StorageType,
    invalidation_paths: TrackedInvalidationPaths,
)
    requires
        graph_wf(graph),
        key.k.index < graph.len(),
        entry_at(graph[key.k.index as int].history, key.v) is None,
        leading_below(graph[key.k.index as int].history, key.v.0 + 1) > 0,
        continues(
            graph[key.k.index as int].history[leading_below(
                graph[key.k.index as int].history,
                key.v.0 + 1,
            ) - 1],
            key.v,
            reusable,
            equal,
        ),
    ensures
        ({
            let node = graph[key.k.index as int];
            let previous = node.history[leading_below(node.history, key.v.0 + 1) - 1];
            let r = updated(graph, key, value, reusable, equal, deps, storage, invalidation_paths);
            &&& !r.2
            &&& r.1.value == previous.value
            &&& r.0.len() == graph.len()
            &&& r.0[key.k.index as int].history.len() == node.history.len()
            &&& r.1.valid.contains_spec(key.v)
            &&& forall|w: VersionNumber|
                previous.versions().contains_spec(w) ==> r.1.valid.contains_spec(w)
            &&& forall|w: VersionNumber|
                w.0 < key.v.0 && r.1.valid.contains_spec(w) ==> previous.versions().contains_spec(w)
        }),
{
    let node = graph[key.k.index as int];
    assert(grown(graph, key.k) == graph);
    assert(node.wf());
    let until = valid_until(graph, node, deps, key.v);
    lemma_valid_until(graph, node, deps, key.v);
    lemma_early_cutoff(
        node,
        key.v,
        value,
        reusable,
        equal,
        until,
        deps,
        storage,
        invalidation_paths,
    );
    let previous = node.history[leading_below(node.history, key.v.0 + 1) - 1];
    let r = recorded(node, key.v, value, reusable, equal, until, deps, storage, invalidation_paths);
    assert(r.1.computed().valid == r.1.versions());
    assert(r.1.versions().contains_spec(key.v)) by {
        assert((VersionRange { begin: key.v, end: until }).contains_spec(key.v));
    }
}

/// No round marks a key whose latest value was injected, unless it is the
/// key that is invalidated itself.
proof fn lemma_injected_is_not_marked<K: Key>(
    graph: Seq<NodeView<K>>,
    root: DiceKey,
    v: VersionNumber,
    rounds: nat,
    k: DiceKey,
)
    requires
        k.index < graph.len(),
        k != root,
        is_injected(graph[k.index as int]),
    ensures
        !affected(graph, root, v, rounds)[k.index as int],
    decreases rounds,
{
    if rounds > 0 {
        lemma_injected_is_not_marked(graph, root, v, (rounds - 1) as nat, k);
        lemma_affected(graph, root, v, (rounds - 1) as nat);
    }
}

/// A key whose value is injected is never marked dirty: forcing a key
/// dirty, the key itself or any other, leaves the records of the injected
/// key as they are.
pub proof fn lemma_injected_is_never_dirtied<K: Key>(
    graph: Seq<NodeView<K>>,
    key: VersionedGraphKey,
    priority: InvalidationSourcePriority,
    equal: bool,
    k: DiceKey,
)
    requires
        graph_wf(graph),
        is_injected(node_of(graph, k)),
    ensures
        node_of(
            invalidated(graph, key, InvalidateKind::<K>::ForceDirty, priority, equal).0,
            k,
        ).history == node_of(graph, k).history,
{
    let g = grown(graph, key.k);
    if k != key.k {
        assert(k.index < graph.len());
        assert(g[k.index as int] == graph[k.index as int]);
        lemma_injected_is_not_marked(g, key.k, key.v, g.len(), k);
        lemma_affected(g, key.k, key.v, g.len());
    }
}

} // verus!
