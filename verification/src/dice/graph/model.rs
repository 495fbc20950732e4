//! What the operations on the graph do, stated on the histories of the keys
//! as sequences of records.

use std::sync::Arc;

use vstd::prelude::*;

use crate::dice::graph::history::EntryView;
use crate::dice::graph::history::NodeView;
use crate::dice::graph::history::VersionedGraphNode;
use crate::dice::graph::history::entry_at;
use crate::dice::graph::history::leading_below;
use crate::dice::graph::history::lemma_begins_rise;
use crate::dice::graph::history::lemma_entry_at_holds;
use crate::dice::graph::history::lemma_entry_at_is_the_record;
use crate::dice::graph::history::lemma_leading_below;
use crate::dice::graph::history::lemma_next_dirty;
use crate::dice::graph::history::lemma_truncated;
use crate::dice::graph::history::next_dirty;
use crate::dice::graph::history::noted;
use crate::dice::graph::history::reaches;
use crate::dice::graph::history::truncated;
use crate::dice::graph::storage::NodeIntrospectable;
use crate::dice::graph::types::InvalidateKind;
use crate::dice::graph::types::ValueReusable;
use crate::dice::graph::types::VersionedGraphKey;
use crate::dice::graph::types::VersionedGraphResult;
use crate::dice::graph::types::VersionedGraphResultMismatch;
use crate::dice::key::DiceKey;
use crate::dice::key::InvalidationSourcePriority;
use crate::dice::key::Key;
use crate::dice::key::StorageType;
use crate::dice::value::DiceComputedValue;
use crate::dice::value::TrackedInvalidationPaths;
use crate::dice::versions::VersionNumber;
use crate::dice::versions::VersionRange;
use crate::dice::versions::min_end;

verus! {

/// The view of a node.
pub open spec fn node_view<K: Key>() -> spec_fn(VersionedGraphNode<K>) -> NodeView<K> {
    |node: VersionedGraphNode<K>| node@
}

/// The node of `k`: blank where the graph has none.
pub open spec fn node_of<K: Key>(graph: Seq<NodeView<K>>, k: DiceKey) -> NodeView<K> {
    if k.index < graph.len() {
        graph[k.index as int]
    } else {
        NodeView::blank()
    }
}

/// The graph with blank nodes added so that `k` has one.
pub open spec fn grown<K: Key>(graph: Seq<NodeView<K>>, k: DiceKey) -> Seq<NodeView<K>> {
    if k.index < graph.len() {
        graph
    } else {
        graph + Seq::new((k.index + 1 - graph.len()) as nat, |i: int| NodeView::<K>::blank())
    }
}

/// The version after `v` as the end of a range: a range that ends there
/// holds at `v` alone.
pub open spec fn just(v: VersionNumber) -> Option<VersionNumber> {
    if v.0 < u64::MAX {
        Some(VersionNumber((v.0 + 1) as u64))
    } else {
        None
    }
}

/// Until when a value that read `dep` at `v` can hold: as long as the value
/// that `dep` has at `v`; at `v` alone where the graph has no value for `dep`
/// at `v`.
pub open spec fn dep_end<K: Key>(graph: Seq<NodeView<K>>, dep: DiceKey, v: VersionNumber) -> Option<
    VersionNumber,
> {
    match entry_at(node_of(graph, dep).history, v) {
        Some(entry) => entry.valid.end,
        None => just(v),
    }
}

/// Until when a value that read `deps` at `v` can hold.
pub open spec fn deps_end<K: Key>(
    graph: Seq<NodeView<K>>,
    deps: Seq<DiceKey>,
    v: VersionNumber,
) -> Option<VersionNumber>
    decreases deps.len(),
{
    if deps.len() == 0 {
        None
    } else {
        min_end(deps_end(graph, deps.drop_last(), v), dep_end(graph, deps.last(), v))
    }
}

/// Where the record after position `p` begins.
pub open spec fn next_begin<K: Key>(history: Seq<EntryView<K>>, p: int) -> Option<VersionNumber> {
    if 0 <= p < history.len() {
        Some(history[p].valid.begin)
    } else {
        None
    }
}

/// Until when a value of `node` that was computed at `v` from `deps` holds:
/// up to the next record of the node, the next invalidation of the key
/// itself, and the end of what was read, whichever comes first.
pub open spec fn valid_until<K: Key>(
    graph: Seq<NodeView<K>>,
    node: NodeView<K>,
    deps: Seq<DiceKey>,
    v: VersionNumber,
) -> Option<VersionNumber> {
    min_end(
        min_end(
            next_begin(node.history, leading_below(node.history, v.0 + 1)),
            next_dirty(node.dirtied, v),
        ),
        deps_end(graph, deps, v),
    )
}

/// The value of the last record of `history` that begins at `v` or before.
pub open spec fn previous_of<K: Key>(history: Seq<EntryView<K>>, v: VersionNumber) -> Option<
    DiceComputedValue<K>,
> {
    let p = leading_below(history, v.0 + 1);
    if p > 0 {
        Some(history[p - 1].computed())
    } else {
        None
    }
}

/// The dependencies of the last record of `key.k` that begins at `key.v` or
/// before; none where there is no such record.
pub open spec fn recorded_deps<K: Key>(graph: Seq<NodeView<K>>, key: VersionedGraphKey) -> Seq<
    DiceKey,
> {
    let history = node_of(graph, key.k).history;
    let p = leading_below(history, key.v.0 + 1);
    if p > 0 {
        history[p - 1].deps
    } else {
        Seq::empty()
    }
}

/// What a lookup of `key` gives: the value of the record whose latest range
/// holds at `key.v`, with all the versions over which that value is known to
/// hold; else, for the computation to start from, the value of the last
/// record whose latest range begins at `key.v` or before.
pub open spec fn lookup<K: Key>(graph: Seq<NodeView<K>>, key: VersionedGraphKey)
    -> VersionedGraphResult<K> {
    let history = node_of(graph, key.k).history;
    match entry_at(history, key.v) {
        Some(entry) => VersionedGraphResult::Match(entry.computed()),
        None => VersionedGraphResult::Mismatch(
            VersionedGraphResultMismatch { previous: previous_of(history, key.v) },
        ),
    }
}

/// Whether a value recorded at `v` continues the record `previous`: that
/// record ended at `v` or before, and the value is the same by the test that
/// `reusable` names, where `equal` says how the equality of the key type
/// came out. A value that is the same since a version is the same if the
/// record is known to hold at that version.
pub open spec fn continues<K: Key>(
    previous: EntryView<K>,
    v: VersionNumber,
    reusable: ValueReusable,
    equal: bool,
) -> bool {
    &&& previous.valid.ends_by(v)
    &&& match reusable {
        ValueReusable::EqualityBased => equal,
        ValueReusable::VersionBased(at) => previous.versions().contains_spec(at),
    }
}

/// The record `previous` after a value recorded at `v` continued it up to
/// `until`. The record keeps its value and gains the versions from `v` up to
/// `until`: its latest range is drawn out where it ended just at `v`; else
/// the versions from `v` on are a range of their own, and the versions
/// between stay outside.
pub open spec fn continued<K: Key>(
    previous: EntryView<K>,
    v: VersionNumber,
    until: Option<VersionNumber>,
    deps: Seq<DiceKey>,
    invalidation_paths: TrackedInvalidationPaths,
) -> EntryView<K> {
    if previous.valid.end == Some(v) {
        EntryView {
            valid: VersionRange { begin: previous.valid.begin, end: until },
            deps,
            invalidation_paths,
            ..previous
        }
    } else {
        EntryView {
            valid: VersionRange { begin: v, end: until },
            earlier: Some(Box::new(previous.versions())),
            deps,
            invalidation_paths,
            ..previous
        }
    }
}

/// The node after a value was recorded at `v`, with the record that the value
/// is in and whether the value is new.
///
/// Where the node has a value at `v` already, nothing changes. Where the
/// value continues the record before `v`, that record gains the versions
/// from `v` up to `until` and no record is added: early cutoff. Else the
/// value gets a record of its own, which holds from `v` up to `until`.
pub open spec fn recorded<K: Key>(
    node: NodeView<K>,
    v: VersionNumber,
    value: Arc<K::Value>,
    reusable: ValueReusable,
    equal: bool,
    until: Option<VersionNumber>,
    deps: Seq<DiceKey>,
    storage: StorageType,
    invalidation_paths: TrackedInvalidationPaths,
) -> (NodeView<K>, EntryView<K>, bool) {
    let p = leading_below(node.history, v.0 + 1);
    if entry_at(node.history, v) is Some {
        (node, entry_at(node.history, v)->0, false)
    } else if p > 0 && continues(node.history[p - 1], v, reusable, equal) {
        let entry = continued(node.history[p - 1], v, until, deps, invalidation_paths);
        (NodeView { history: node.history.update(p - 1, entry), ..node }, entry, false)
    } else {
        let entry = EntryView {
            valid: VersionRange { begin: v, end: until },
            earlier: None,
            value,
            storage,
            deps,
            invalidation_paths,
        };
        (NodeView { history: node.history.insert(p, entry), ..node }, entry, true)
    }
}

/// The graph after a value was recorded for `key`.
pub open spec fn updated<K: Key>(
    graph: Seq<NodeView<K>>,
    key: VersionedGraphKey,
    value: Arc<K::Value>,
    reusable: ValueReusable,
    equal: bool,
    deps: Seq<DiceKey>,
    storage: StorageType,
    invalidation_paths: TrackedInvalidationPaths,
) -> (Seq<NodeView<K>>, DiceComputedValue<K>, bool) {
    let g = grown(graph, key.k);
    let node = g[key.k.index as int];
    let until = valid_until(g, node, deps, key.v);
    let r = recorded(node, key.v, value, reusable, equal, until, deps, storage, invalidation_paths);
    (g.update(key.k.index as int, r.0), r.1.computed(), r.2)
}

/// The value that the equality of the key type is asked about when a value
/// is recorded at `v`: that of the last record that begins at `v` or before.
pub open spec fn compared<K: Key>(graph: Seq<NodeView<K>>, key: VersionedGraphKey) -> Option<
    Arc<K::Value>,
> {
    let history = node_of(graph, key.k).history;
    let p = leading_below(history, key.v.0 + 1);
    if p > 0 {
        Some(history[p - 1].value)
    } else {
        None
    }
}

/// How the equality of the key type comes out for a value recorded for
/// `key`; `false` where there is no earlier value.
pub open spec fn equal_to_previous<K: Key>(
    graph: Seq<NodeView<K>>,
    key: VersionedGraphKey,
    value: Arc<K::Value>,
) -> bool {
    match compared(graph, key) {
        Some(previous) => K::equality_spec(&*previous, &*value),
        None => false,
    }
}

pub proof fn lemma_deps_end<K: Key>(graph: Seq<NodeView<K>>, deps: Seq<DiceKey>, v: VersionNumber)
    ensures
        deps_end(graph, deps, v) matches Some(e) ==> e.0 > v.0,
    decreases deps.len(),
{
    if deps.len() > 0 {
        lemma_deps_end(graph, deps.drop_last(), v);
        lemma_entry_at_holds(node_of(graph, deps.last()).history, v);
    }
}

/// A value is recorded for versions from its own on, and never beyond the
/// next record of the key.
pub proof fn lemma_valid_until<K: Key>(
    graph: Seq<NodeView<K>>,
    node: NodeView<K>,
    deps: Seq<DiceKey>,
    v: VersionNumber,
)
    ensures
        valid_until(graph, node, deps, v) matches Some(e) ==> e.0 > v.0,
        ({
            let p = leading_below(node.history, v.0 + 1);
            p < node.history.len() ==> (valid_until(graph, node, deps, v) matches Some(e) && e.0
                <= node.history[p].valid.begin.0)
        }),
{
    lemma_deps_end(graph, deps, v);
    lemma_next_dirty(node.dirtied, v);
    lemma_leading_below(node.history, v.0 + 1);
}

/// Recording a value keeps the history of a node well formed, and the value
/// then holds at the version at which it was recorded.
#[verifier::rlimit(50)]
pub proof fn lemma_recorded<K: Key>(
    node: NodeView<K>,
    v: VersionNumber,
    value: Arc<K::Value>,
    reusable: ValueReusable,
    equal: bool,
    until: Option<VersionNumber>,
    deps: Seq<DiceKey>,
    storage: StorageType,
    invalidation_paths: TrackedInvalidationPaths,
)
    requires
        node.wf(),
        until matches Some(e) ==> e.0 > v.0,
        ({
            let p = leading_below(node.history, v.0 + 1);
            p < node.history.len() ==> (until matches Some(e) && e.0
                <= node.history[p].valid.begin.0)
        }),
    ensures
        ({
            let r = recorded(
                node,
                v,
                value,
                reusable,
                equal,
                until,
                deps,
                storage,
                invalidation_paths,
            );
            &&& r.0.wf()
            &&& entry_at(r.0.history, v) == Some(r.1)
            &&& r.0.dirtied == node.dirtied
        }),
{
    let h = node.history;
    let p = leading_below(h, v.0 + 1);
    let r = recorded(node, v, value, reusable, equal, until, deps, storage, invalidation_paths);
    let h2 = r.0.history;
    lemma_leading_below(h, v.0 + 1);
    if entry_at(h, v) is Some {
    } else if p > 0 && continues(h[p - 1], v, reusable, equal) {
        assert(h[p - 1].valid.well_formed());
        assert forall|i: int, j: int| 0 <= i < j < h2.len() implies (#[trigger] h2[i]).valid.ends_by(
            (#[trigger] h2[j]).valid.begin,
        ) by {
            assert(h[i].valid.ends_by(h[j].valid.begin));
            if i == p - 1 {
                lemma_begins_rise(h, p - 1, j);
                if j > p {
                    lemma_begins_rise(h, p, j);
                }
            }
            if j == p - 1 {
                assert(h[i].valid.ends_by(h[p - 1].valid.begin));
            }
        }
        assert forall|i: int| 0 <= i < h2.len() implies (#[trigger] h2[i]).valid.well_formed() by {
            assert(h[i].valid.well_formed());
        }
        lemma_entry_at_is_the_record(h2, v, p - 1);
    } else {
        assert forall|i: int| 0 <= i < h2.len() implies (#[trigger] h2[i]).valid.well_formed() by {
            if i < p {
                assert(h2[i] == h[i]);
                assert(h[i].valid.well_formed());
            } else if i > p {
                assert(h2[i] == h[i - 1]);
                assert(h[i - 1].valid.well_formed());
            }
        }
        assert forall|i: int, j: int| 0 <= i < j < h2.len() implies (#[trigger] h2[i]).valid.ends_by(
            (#[trigger] h2[j]).valid.begin,
        ) by {
            if j < p {
                assert(h2[i] == h[i] && h2[j] == h[j]);
                assert(h[i].valid.ends_by(h[j].valid.begin));
            } else if j == p {
                assert(h2[i] == h[i]);
                assert(h[i].valid.well_formed());
                if i < p - 1 {
                    assert(h[i].valid.ends_by(h[p - 1].valid.begin));
                } else {
                    assert(!h[p - 1].valid.contains_spec(v));
                }
            } else if i < p {
                assert(h2[i] == h[i] && h2[j] == h[j - 1]);
                assert(h[i].valid.ends_by(h[j - 1].valid.begin));
            } else if i == p {
                assert(h2[j] == h[j - 1]);
                if j - 1 > p {
                    lemma_begins_rise(h, p, j - 1);
                }
            } else {
                assert(h2[i] == h[i - 1] && h2[j] == h[j - 1]);
                assert(h[i - 1].valid.ends_by(h[j - 1].valid.begin));
            }
        }
        lemma_entry_at_is_the_record(h2, v, p);
    }
}

/// What a snapshot shows of the node at a position.
pub open spec fn summary_at<K: Key>(graph: Seq<NodeView<K>>, i: int) -> NodeIntrospectable {
    NodeIntrospectable {
        key: DiceKey { index: i as u32 },
        records: graph[i].history.len() as usize,
        latest: if graph[i].history.len() > 0 {
            Some(graph[i].history.last().valid)
        } else {
            None
        },
        invalidations: graph[i].dirtied.len() as usize,
    }
}

/// What a snapshot shows of each node.
pub open spec fn summaries<K: Key>(graph: Seq<NodeView<K>>) -> Seq<NodeIntrospectable> {
    Seq::new(graph.len(), |i: int| summary_at(graph, i))
}

/// Picks what is shown of nodes of which the graph knows something.
pub open spec fn known_summary() -> spec_fn(NodeIntrospectable) -> bool {
    |node: NodeIntrospectable| node.records > 0 || node.invalidations > 0
}

/// Picks the nodes of which the graph knows something.
pub open spec fn known_pred<K: Key>() -> spec_fn(NodeView<K>) -> bool {
    |node: NodeView<K>| !node.is_blank()
}

/// Every node has a well-formed history, and every node stands at a position
/// that is the handle of a key.
pub open spec fn graph_wf<K: Key>(graph: Seq<NodeView<K>>) -> bool {
    &&& graph.len() <= u32::MAX + 1
    &&& forall|i: int| 0 <= i < graph.len() ==> (#[trigger] graph[i]).wf()
}

/// Whether `flags` marks the key `k`.
pub open spec fn flag_of(flags: Seq<bool>, k: DiceKey) -> bool {
    k.index < flags.len() && flags[k.index as int]
}

/// Whether one of `deps` is marked.
pub open spec fn reads_flagged(deps: Seq<DiceKey>, flags: Seq<bool>) -> bool {
    exists|j: int| 0 <= j < deps.len() && flag_of(flags, #[trigger] deps[j])
}

/// Whether an invalidation at `v` of the marked keys reaches `node`: its
/// latest record holds at `v` or later and was computed from a marked key.
/// A value that was injected was not computed, and is never reached.
pub open spec fn depends<K: Key>(node: NodeView<K>, flags: Seq<bool>, v: VersionNumber) -> bool {
    &&& reaches(node.history, v)
    &&& !is_injected(node)
    &&& reads_flagged(node.history.last().deps, flags)
}

/// The marks after one more round: a key is marked if it was, or if it
/// depends on a key that was.
pub open spec fn step<K: Key>(graph: Seq<NodeView<K>>, flags: Seq<bool>, v: VersionNumber) -> Seq<
    bool,
> {
    Seq::new(graph.len(), |i: int| flags[i] || depends(graph[i], flags, v))
}

/// Marks for `len` keys, of which `k` alone is marked.
pub open spec fn only(len: nat, k: DiceKey) -> Seq<bool> {
    Seq::new(len, |i: int| i == k.index)
}

/// The keys that an invalidation of `root` at `v` reaches in at most
/// `rounds` steps from a key to one that was computed from it.
pub open spec fn affected<K: Key>(
    graph: Seq<NodeView<K>>,
    root: DiceKey,
    v: VersionNumber,
    rounds: nat,
) -> Seq<bool>
    decreases rounds,
{
    if rounds == 0 {
        only(graph.len(), root)
    } else {
        step(graph, affected(graph, root, v, (rounds - 1) as nat), v)
    }
}

/// The keys that an invalidation of `root` at `v` reaches: `root` and all
/// that was computed from it, directly or through other keys. As many rounds
/// as the graph has nodes reach them all.
pub open spec fn dirtied_by<K: Key>(graph: Seq<NodeView<K>>, root: DiceKey, v: VersionNumber) -> Seq<
    bool,
> {
    affected(graph, root, v, graph.len())
}

/// The graph after the marked nodes were cut at `v`, each noting the
/// invalidation of `root` as the reason.
pub open spec fn cut_all<K: Key>(
    graph: Seq<NodeView<K>>,
    flags: Seq<bool>,
    root: DiceKey,
    v: VersionNumber,
    priority: InvalidationSourcePriority,
) -> Seq<NodeView<K>> {
    Seq::new(
        graph.len(),
        |i: int|
            if flags[i] {
                graph[i].cut(v, graph[i].invalidation_paths.dirtied_spec(root, v, priority))
            } else {
                graph[i]
            },
    )
}

/// The graph after `key.v` was noted as an invalidation of `key.k`.
pub open spec fn with_note<K: Key>(graph: Seq<NodeView<K>>, key: VersionedGraphKey) -> Seq<
    NodeView<K>,
> {
    let node = graph[key.k.index as int];
    graph.update(
        key.k.index as int,
        NodeView { dirtied: noted(node.dirtied, key.v), ..node },
    )
}

/// The graph after `value` was installed for `key.k` from `key.v` on, up to
/// the next invalidation of the key.
pub open spec fn installed<K: Key>(
    graph: Seq<NodeView<K>>,
    key: VersionedGraphKey,
    value: Arc<K::Value>,
    storage: StorageType,
) -> Seq<NodeView<K>> {
    let node = graph[key.k.index as int];
    let entry = EntryView {
        valid: VersionRange { begin: key.v, end: next_dirty(node.dirtied, key.v) },
        earlier: None,
        value,
        storage,
        deps: Seq::empty(),
        invalidation_paths: TrackedInvalidationPaths::clean_spec(),
    };
    graph.update(key.k.index as int, NodeView { history: node.history.push(entry), ..node })
}

/// Whether the latest value of the node was injected.
pub open spec fn is_injected<K: Key>(node: NodeView<K>) -> bool {
    node.history.len() > 0 && node.history.last().storage is Injected
}

/// How the equality of the key type comes out between the value that
/// `key.k` has at `key.v` and the value that `kind` brings; `false` where
/// there is no such pair.
pub open spec fn equal_to_current<K: Key>(
    graph: Seq<NodeView<K>>,
    key: VersionedGraphKey,
    kind: InvalidateKind<K>,
) -> bool {
    match (kind, entry_at(node_of(graph, key.k).history, key.v)) {
        (InvalidateKind::Update(value, _), Some(entry)) => K::equality_spec(
            &*entry.value,
            &*value,
        ),
        _ => false,
    }
}

/// The graph after `key.k` was invalidated at `key.v`, and whether that
/// changed anything for the key, where `equal` says whether the equality of
/// the key type takes a value that `kind` brings for the value that the key
/// has.
///
/// Forcing a key dirty changes nothing if its latest value was injected, or
/// if the graph knows the key and has no value for it from `key.v` on; the
/// invalidation is noted all the same. Bringing a value changes nothing if
/// the key has an equal value at `key.v`. In every other case nothing holds
/// from `key.v` on for the key and for what was computed from it, and a value
/// that was brought is installed.
pub open spec fn invalidated<K: Key>(
    graph: Seq<NodeView<K>>,
    key: VersionedGraphKey,
    kind: InvalidateKind<K>,
    priority: InvalidationSourcePriority,
    equal: bool,
) -> (Seq<NodeView<K>>, bool) {
    let node = node_of(graph, key.k);
    let g = grown(graph, key.k);
    let spread = with_note(
        cut_all(g, dirtied_by(g, key.k, key.v), key.k, key.v, priority),
        key,
    );
    match kind {
        InvalidateKind::ForceDirty => {
            if is_injected(node) {
                (graph, false)
            } else if !node.is_blank() && !reaches(node.history, key.v) {
                (with_note(g, key), false)
            } else {
                (spread, true)
            }
        },
        InvalidateKind::Update(value, storage) => {
            if entry_at(node.history, key.v) is Some && equal {
                (graph, false)
            } else {
                (installed(spread, key, value, storage), true)
            }
        },
    }
}

/// Once a round marks nothing new, no later round does.
pub proof fn lemma_affected_settles<K: Key>(
    graph: Seq<NodeView<K>>,
    root: DiceKey,
    v: VersionNumber,
    settled: nat,
    rounds: nat,
)
    requires
        settled <= rounds,
        step(graph, affected(graph, root, v, settled), v) == affected(graph, root, v, settled),
    ensures
        affected(graph, root, v, rounds) == affected(graph, root, v, settled),
    decreases rounds,
{
    if rounds > settled {
        lemma_affected_settles(graph, root, v, settled, (rounds - 1) as nat);
    }
}

/// The marks are as many as the nodes, the root is marked, and a key that is
/// marked stays marked.
pub proof fn lemma_affected<K: Key>(
    graph: Seq<NodeView<K>>,
    root: DiceKey,
    v: VersionNumber,
    rounds: nat,
)
    ensures
        affected(graph, root, v, rounds).len() == graph.len(),
        root.index < graph.len() ==> affected(graph, root, v, rounds)[root.index as int],
        rounds > 0 ==> forall|i: int|
            0 <= i < graph.len() && affected(graph, root, v, (rounds - 1) as nat)[i]
                ==> #[trigger] affected(graph, root, v, rounds)[i],
    decreases rounds,
{
    if rounds > 0 {
        lemma_affected(graph, root, v, (rounds - 1) as nat);
    }
}

/// Cutting nodes, noting an invalidation and installing a value keep every
/// history well formed.
#[verifier::rlimit(50)]
pub proof fn lemma_invalidated_wf<K: Key>(
    graph: Seq<NodeView<K>>,
    key: VersionedGraphKey,
    kind: InvalidateKind<K>,
    priority: InvalidationSourcePriority,
    equal: bool,
)
    requires
        graph_wf(graph),
    ensures
        graph_wf(invalidated(graph, key, kind, priority, equal).0),
        graph_wf(grown(graph, key.k)),
        graph_wf(
            cut_all(
                grown(graph, key.k),
                dirtied_by(grown(graph, key.k), key.k, key.v),
                key.k,
                key.v,
                priority,
            ),
        ),
{
    let g = grown(graph, key.k);
    assert forall|i: int| 0 <= i < g.len() implies (#[trigger] g[i]).wf() by {
        if i < graph.len() {
            assert(g[i] == graph[i]);
        }
    }
    let flags = dirtied_by(g, key.k, key.v);
    lemma_affected(g, key.k, key.v, g.len());
    let c = cut_all(g, flags, key.k, key.v, priority);
    assert forall|i: int| 0 <= i < c.len() implies (#[trigger] c[i]).wf() by {
        assert(g[i].wf());
        lemma_truncated(g[i].history, key.v);
    }
    let spread = with_note(c, key);
    assert forall|i: int| 0 <= i < spread.len() implies (#[trigger] spread[i]).wf() by {
        assert(c[i].wf());
    }
    let noted_only = with_note(g, key);
    assert forall|i: int| 0 <= i < noted_only.len() implies (#[trigger] noted_only[i]).wf() by {
        assert(g[i].wf());
    }
    match kind {
        InvalidateKind::ForceDirty => {},
        InvalidateKind::Update(value, storage) => {
            let inst = installed(spread, key, value, storage);
            let root = key.k.index as int;
            assert(flags[root]);
            lemma_truncated(g[root].history, key.v);
            lemma_next_dirty(spread[root].dirtied, key.v);
            let h = spread[root].history;
            assert(h == truncated(g[root].history, key.v));
            let h2 = inst[root].history;
            assert forall|i: int| 0 <= i < inst.len() implies (#[trigger] inst[i]).wf() by {
                if i != root {
                    assert(inst[i] == spread[i]);
                    assert(spread[i].wf());
                } else {
                    assert(spread[root].wf());
                    assert forall|a: int| 0 <= a < h2.len() implies (
                    #[trigger] h2[a]).valid.well_formed() by {
                        if a < h.len() {
                            assert(h2[a] == h[a]);
                            assert(h[a].valid.well_formed());
                        }
                    }
                    assert forall|a: int, b: int| 0 <= a < b < h2.len() implies (
                    #[trigger] h2[a]).valid.ends_by((#[trigger] h2[b]).valid.begin) by {
                        if b < h.len() {
                            assert(h2[a] == h[a] && h2[b] == h[b]);
                            assert(h[a].valid.ends_by(h[b].valid.begin));
                        } else {
                            assert(h2[a] == h[a]);
                            if a < h.len() - 1 {
                                assert(h[a].valid.ends_by(h[h.len() - 1].valid.begin));
                                assert(h[h.len() - 1].valid.well_formed());
                            }
                            assert(!h.last().valid.reaches(key.v));
                        }
                    }
                }
            }
        },
    }
}

} // verus!
