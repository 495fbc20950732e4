//! The nodes of all keys, and the three operations on them: look up a value,
//! record a value, invalidate a key.

use std::sync::Arc;

use vstd::prelude::*;

use crate::dice::graph::history::EntryView;
use crate::dice::graph::history::GraphEntry;
use crate::dice::graph::history::NodeView;
use crate::dice::graph::history::VersionedGraphNode;
use crate::dice::graph::history::entry_at;
use crate::dice::graph::history::lemma_leading_below;
use crate::dice::graph::history::lemma_truncated;
use crate::dice::graph::history::reaches;
use crate::dice::graph::history::truncated;
use crate::dice::graph::laws::marked;
use crate::dice::graph::model::affected;
use crate::dice::graph::model::depends;
use crate::dice::graph::model::flag_of;
use crate::dice::graph::model::is_injected;
use crate::dice::graph::laws::lemma_dirtied_by_is_closed;
use crate::dice::graph::laws::lemma_more_marks;
use crate::dice::graph::model::continues;
use crate::dice::graph::history::leading_below;
use crate::dice::graph::model::lemma_affected;
use crate::dice::graph::model::cut_all;
use crate::dice::graph::model::dep_end;
use crate::dice::graph::model::deps_end;
use crate::dice::graph::model::dirtied_by;
use crate::dice::graph::model::equal_to_current;
use crate::dice::graph::model::equal_to_previous;
use crate::dice::graph::model::graph_wf;
use crate::dice::graph::model::grown;
use crate::dice::graph::model::installed;
use crate::dice::graph::model::invalidated;
use crate::dice::graph::model::known_pred;
use crate::dice::graph::model::known_summary;
use crate::dice::graph::model::lemma_invalidated_wf;
use crate::dice::graph::model::lemma_recorded;
use crate::dice::graph::model::lemma_valid_until;
use crate::dice::graph::model::lookup;
use crate::dice::graph::model::node_view;
use crate::dice::graph::model::recorded;
use crate::dice::graph::model::recorded_deps;
use crate::dice::graph::model::summaries;
use crate::dice::graph::model::updated;
use crate::dice::graph::model::valid_until;
use crate::dice::graph::model::with_note;
use crate::dice::graph::types::InvalidateKind;
use crate::dice::graph::types::ValueReusable;
use crate::dice::graph::types::VersionedGraphKey;
use crate::dice::graph::types::VersionedGraphResult;
use crate::dice::graph::types::VersionedGraphResultMismatch;
use crate::dice::key::DiceKey;
use crate::dice::key::InvalidationSourcePriority;
use crate::dice::key::Key;
use crate::dice::key::StorageType;
use crate::dice::value::DiceComputedValue;
use crate::dice::value::TrackedInvalidationPaths;
use crate::dice::versions::VersionNumber;
use crate::dice::versions::VersionRange;
use crate::dice::versions::earlier_end;
use crate::seq_util::lemma_filter_empty;
use crate::seq_util::lemma_filter_take_step;

verus! {

pub struct VersionedGraph<K: Key> {
    /// The node of each key, at the position that the handle of the key
    /// gives.
    pub nodes: Vec<VersionedGraphNode<K>>,
    /// For each key, at the position that its handle gives, the keys that
    /// have a record that was computed from it. An invalidation follows
    /// these to find what it reaches.
    pub rdeps: Vec<Vec<DiceKey>>,
}

/// Whether the key at position `j` is listed as a reader of `d`.
pub open spec fn lists_reader(rdeps: Seq<Vec<DiceKey>>, d: DiceKey, j: int) -> bool {
    d.index < rdeps.len() && rdeps[d.index as int]@.contains(DiceKey { index: j as u32 })
}

/// Whether the key at position `j` is listed as a reader of each of `deps`.
pub open spec fn entry_registered(rdeps: Seq<Vec<DiceKey>>, deps: Seq<DiceKey>, j: int) -> bool {
    forall|a: int| 0 <= a < deps.len() ==> lists_reader(rdeps, #[trigger] deps[a], j)
}

/// Whether the key at position `j` is listed as a reader of everything that
/// one of its records was computed from.
pub open spec fn node_registered<K: Key>(
    rdeps: Seq<Vec<DiceKey>>,
    history: Seq<EntryView<K>>,
    j: int,
) -> bool {
    forall|e: int|
        0 <= e < history.len() ==> entry_registered(rdeps, (#[trigger] history[e]).deps, j)
}

/// Whether `after` lists every reader that `before` lists.
pub open spec fn extends(before: Seq<Vec<DiceKey>>, after: Seq<Vec<DiceKey>>) -> bool {
    &&& before.len() <= after.len()
    &&& forall|i: int, x: DiceKey|
        0 <= i < before.len() && before[i]@.contains(x) ==> #[trigger] after[i]@.contains(x)
}

/// Who is listed as a reader stays listed when the lists grow.
pub proof fn lemma_extends_keeps_readers<K: Key>(
    before: Seq<Vec<DiceKey>>,
    after: Seq<Vec<DiceKey>>,
    history: Seq<EntryView<K>>,
    j: int,
)
    requires
        extends(before, after),
        node_registered(before, history, j),
    ensures
        node_registered(after, history, j),
{
    assert forall|e: int| 0 <= e < history.len() implies entry_registered(
        after,
        (#[trigger] history[e]).deps,
        j,
    ) by {
        assert(entry_registered(before, history[e].deps, j));
        assert forall|a: int| 0 <= a < history[e].deps.len() implies lists_reader(
            after,
            #[trigger] history[e].deps[a],
            j,
        ) by {
            assert(lists_reader(before, history[e].deps[a], j));
        }
    }
}

/// Whether the latest record of `node` holds at `v` or later and was
/// computed from `d`.
pub open spec fn reads_key<K: Key>(node: NodeView<K>, d: DiceKey, v: VersionNumber) -> bool {
    &&& reaches(node.history, v)
    &&& !is_injected(node)
    &&& node.history.last().deps.contains(d)
}

/// Whether every key that reads the key at position `d` is marked.
pub open spec fn readers_marked<K: Key>(
    graph: Seq<NodeView<K>>,
    flags: Seq<bool>,
    d: int,
    v: VersionNumber,
) -> bool {
    forall|j: int|
        0 <= j < graph.len() && reads_key(#[trigger] graph[j], DiceKey { index: d as u32 }, v)
            ==> flags[j]
}

/// Whether `d` is one of the positions listed.
pub open spec fn on_stack(stack: Seq<u32>, d: int) -> bool {
    exists|s: int| 0 <= s < stack.len() && #[trigger] stack[s] == d
}

/// Marks that hold the root and are closed under dependency hold every key
/// that an invalidation of the root reaches in any number of rounds.
pub proof fn lemma_closed_marks_hold_all<K: Key>(
    graph: Seq<NodeView<K>>,
    root: DiceKey,
    v: VersionNumber,
    flags: Seq<bool>,
    rounds: nat,
)
    requires
        flags.len() == graph.len(),
        root.index < graph.len(),
        flags[root.index as int],
        forall|j: int| 0 <= j < graph.len() && depends(#[trigger] graph[j], flags, v) ==> flags[j],
    ensures
        forall|i: int|
            0 <= i < graph.len() && affected(graph, root, v, rounds)[i] ==> #[trigger] flags[i],
    decreases rounds,
{
    lemma_affected(graph, root, v, rounds);
    if rounds > 0 {
        let before = affected(graph, root, v, (rounds - 1) as nat);
        lemma_closed_marks_hold_all(graph, root, v, flags, (rounds - 1) as nat);
        lemma_affected(graph, root, v, (rounds - 1) as nat);
        assert forall|i: int|
            0 <= i < graph.len() && affected(graph, root, v, rounds)[i] implies #[trigger] flags[i] by {
            if !before[i] {
                assert(depends(graph[i], before, v));
                let deps = graph[i].history.last().deps;
                let a = choose|a: int| 0 <= a < deps.len() && flag_of(before, #[trigger] deps[a]);
                assert(flags[deps[a].index as int]);
                assert(flag_of(flags, deps[a]));
                assert(depends(graph[i], flags, v));
            }
        }
    }
}

impl<K: Key> View for VersionedGraph<K> {
    type V = Seq<NodeView<K>>;

    open spec fn view(&self) -> Seq<NodeView<K>> {
        self.nodes@.map_values(node_view())
    }
}

/// What a snapshot shows of one node.
#[derive(Clone, Copy, Debug, PartialEq, Eq, Structural)]
pub struct NodeIntrospectable {
    pub key: DiceKey,
    /// How many records the history of the key has.
    pub records: usize,
    /// The versions over which the latest record holds.
    pub latest: Option<VersionRange>,
    /// At how many versions the key itself was invalidated.
    pub invalidations: usize,
}

/// A snapshot of the graph.
pub struct VersionedGraphIntrospectable {
    pub nodes: Vec<NodeIntrospectable>,
}

/// A key that is listed as a reader of what its records were computed from,
/// and of `deps`, is so after a value that was computed from `deps` was
/// recorded.
pub proof fn lemma_recorded_keeps_readers<K: Key>(
    rdeps: Seq<Vec<DiceKey>>,
    node: NodeView<K>,
    v: VersionNumber,
    value: Arc<K::Value>,
    reusable: ValueReusable,
    equal: bool,
    until: Option<VersionNumber>,
    deps: Seq<DiceKey>,
    storage: StorageType,
    invalidation_paths: TrackedInvalidationPaths,
    j: int,
)
    requires
        node_registered(rdeps, node.history, j),
        entry_registered(rdeps, deps, j),
    ensures
        node_registered(
            rdeps,
            recorded(node, v, value, reusable, equal, until, deps, storage, invalidation_paths).0.history,
            j,
        ),
{
    let h = node.history;
    let p = leading_below(h, v.0 + 1);
    let h2 = recorded(
        node,
        v,
        value,
        reusable,
        equal,
        until,
        deps,
        storage,
        invalidation_paths,
    ).0.history;
    lemma_leading_below(h, v.0 + 1);
    assert forall|e: int| 0 <= e < h2.len() implies entry_registered(
        rdeps,
        (#[trigger] h2[e]).deps,
        j,
    ) by {
        if entry_at(h, v) is Some {
            assert(h2[e] == h[e]);
        } else if p > 0 && continues(h[p - 1], v, reusable, equal) {
            if e != p - 1 {
                assert(h2[e] == h[e]);
            }
        } else {
            if e < p {
                assert(h2[e] == h[e]);
            } else if e > p {
                assert(h2[e] == h[e - 1]);
            }
        }
    }
}

impl<K: Key> VersionedGraph<K> {
    pub open spec fn wf(&self) -> bool {
        graph_wf(self@) && self.rdeps_wf()
    }

    /// Each key is listed as a reader of everything that one of its records
    /// was computed from.
    pub open spec fn rdeps_wf(&self) -> bool {
        forall|j: int|
            0 <= j < self@.len() ==> node_registered(self.rdeps@, (#[trigger] self@[j]).history, j)
    }

    pub fn new() -> (graph: Self)
        ensures
            graph.wf(),
            graph@ == Seq::<NodeView<K>>::empty(),
    {
        let graph = VersionedGraph { nodes: Vec::new(), rdeps: Vec::new() };
        proof {
            assert(graph@ =~= Seq::<NodeView<K>>::empty());
        }
        graph
    }

    /// Makes sure that `k` has a node.
    fn grow(&mut self, k: DiceKey)
        requires
            old(self).wf(),
        ensures
            final(self).wf(),
            final(self)@ == grown(old(self)@, k),
            final(self).rdeps == old(self).rdeps,
            k.index < final(self).nodes@.len(),
    {
        let ghost g = self@;
        while self.nodes.len() <= k.index as usize
            invariant
                self.wf(),
                self.rdeps == old(self).rdeps,
                g == old(self)@,
                self.nodes@.len() >= g.len(),
                self.nodes@.len() <= k.index + 1 || self.nodes@.len() == g.len(),
                self@ =~= g + Seq::new(
                    (self.nodes@.len() - g.len()) as nat,
                    |i: int| NodeView::<K>::blank(),
                ),
            decreases k.index + 1 - self.nodes@.len(),
        {
            let ghost before = self@;
            self.nodes.push(VersionedGraphNode::blank());
            proof {
                assert(self@ =~= before.push(NodeView::<K>::blank()));
                assert forall|i: int| 0 <= i < self@.len() implies (#[trigger] self@[i]).wf() by {
                    if i < before.len() {
                        assert(self@[i] == before[i]);
                    }
                }
                assert forall|j: int| 0 <= j < self@.len() implies node_registered(
                    self.rdeps@,
                    (#[trigger] self@[j]).history,
                    j,
                ) by {
                    if j < before.len() {
                        assert(self@[j] == before[j]);
                    }
                }
            }
        }
        proof {
            if k.index < g.len() {
                assert(self@ =~= g);
            }
        }
    }

    /// Whether `d` is one of `deps`.
    fn is_one_of(deps: &Vec<DiceKey>, d: DiceKey) -> (b: bool)
        ensures
            b == deps@.contains(d),
    {
        let mut a: usize = 0;
        while a < deps.len()
            invariant
                a <= deps@.len(),
                forall|x: int| 0 <= x < a ==> deps@[x] != d,
            decreases deps@.len() - a,
        {
            if deps[a].index == d.index {
                proof {
                    assert(deps@[a as int] == d);
                }
                return true;
            }
            a = a + 1;
        }
        false
    }

    /// Lists `k` as a reader of each of `deps`. Nothing is added for what is
    /// among `known`, of which `k` is listed as a reader already.
    #[verifier::rlimit(50)]
    fn register(rdeps: &mut Vec<Vec<DiceKey>>, deps: &Vec<DiceKey>, known: &Vec<DiceKey>, k: DiceKey)
        requires
            entry_registered(old(rdeps)@, known@, k.index as int),
        ensures
            extends(old(rdeps)@, final(rdeps)@),
            entry_registered(final(rdeps)@, deps@, k.index as int),
    {
        let mut a: usize = 0;
        while a < deps.len()
            invariant
                a <= deps@.len(),
                extends(old(rdeps)@, rdeps@),
                entry_registered(rdeps@, known@, k.index as int),
                entry_registered(rdeps@, deps@.take(a as int), k.index as int),
            decreases deps@.len() - a,
        {
            let d = deps[a];
            let ghost before = rdeps@;
            if !Self::is_one_of(known, d) {
                while rdeps.len() <= d.index as usize
                    invariant
                        extends(before, rdeps@),
                        rdeps@.len() >= before.len(),
                    decreases d.index + 1 - rdeps@.len(),
                {
                    let ghost mid = rdeps@;
                    rdeps.push(Vec::new());
                    proof {
                        assert forall|i: int, x: DiceKey|
                            0 <= i < before.len() && before[i]@.contains(x) implies #[trigger] rdeps@[i]@.contains(
                            x,
                        ) by {
                            assert(mid[i]@.contains(x));
                            assert(rdeps@[i] == mid[i]);
                        }
                    }
                }
                let ghost mid = rdeps@;
                let readers = &mut rdeps[d.index as usize];
                let ghost listed = readers@;
                readers.push(k);
                proof {
                    assert(rdeps@[d.index as int]@ == listed.push(k));
                    assert(rdeps@[d.index as int]@[listed.len() as int] == k);
                    assert forall|i: int, x: DiceKey|
                        0 <= i < mid.len() && mid[i]@.contains(x) implies #[trigger] rdeps@[i]@.contains(
                        x,
                    ) by {
                        if i == d.index {
                            let c = choose|c: int| 0 <= c < listed.len() && listed[c] == x;
                            assert(listed.push(k)[c] == x);
                        } else {
                            assert(rdeps@[i] == mid[i]);
                        }
                    }
                    assert(extends(mid, rdeps@));
                    assert forall|i: int, x: DiceKey|
                        0 <= i < before.len() && before[i]@.contains(x) implies #[trigger] rdeps@[i]@.contains(
                        x,
                    ) by {
                        assert(mid[i]@.contains(x));
                    }
                }
            } else {
                proof {
                    let at = choose|at: int| 0 <= at < known@.len() && known@[at] == d;
                    assert(lists_reader(rdeps@, known@[at], k.index as int));
                }
            }
            proof {
                let now = rdeps@;
                assert(extends(before, now));
                assert forall|i: int, x: DiceKey|
                    0 <= i < old(rdeps)@.len() && old(rdeps)@[i]@.contains(x) implies #[trigger] now[i]@.contains(
                    x,
                ) by {
                    assert(before[i]@.contains(x));
                }
                assert forall|x: int| 0 <= x < known@.len() implies lists_reader(
                    now,
                    #[trigger] known@[x],
                    k.index as int,
                ) by {
                    assert(lists_reader(before, known@[x], k.index as int));
                }
                let seen = deps@.take(a + 1);
                assert forall|x: int| 0 <= x < seen.len() implies lists_reader(
                    now,
                    #[trigger] seen[x],
                    k.index as int,
                ) by {
                    if x < a {
                        assert(deps@.take(a as int)[x] == seen[x]);
                        assert(lists_reader(before, deps@.take(a as int)[x], k.index as int));
                    }
                }
            }
            a = a + 1;
        }
        proof {
            assert(deps@.take(a as int) =~= deps@);
        }
    }

    /// Until when a value that read `deps` at `v` can hold.
    fn deps_end(&self, deps: &Vec<DiceKey>, v: VersionNumber) -> (end: Option<VersionNumber>)
        requires
            self.wf(),
        ensures
            end == deps_end(self@, deps@, v),
    {
        let mut end: Option<VersionNumber> = None;
        let mut i: usize = 0;
        proof {
            assert(deps@.take(0) =~= Seq::<DiceKey>::empty());
        }
        while i < deps.len()
            invariant
                self.wf(),
                i <= deps@.len(),
                end == deps_end(self@, deps@.take(i as int), v),
            decreases deps@.len() - i,
        {
            let dep = deps[i];
            proof {
                let s = deps@.take(i + 1);
                assert(s.drop_last() =~= deps@.take(i as int));
                assert(s.last() == dep);
            }
            let dep_end = if (dep.index as usize) < self.nodes.len() {
                let node = &self.nodes[dep.index as usize];
                proof {
                    assert(self@[dep.index as int] == node@);
                    assert(node.wf());
                }
                match node.holding_at(v) {
                    Some(at) => node.history[at].valid.end,
                    None => if v.0 < u64::MAX {
                        Some(VersionNumber(v.0 + 1))
                    } else {
                        None
                    },
                }
            } else {
                proof {
                    lemma_leading_below(NodeView::<K>::blank().history, v.0 + 1);
                }
                if v.0 < u64::MAX {
                    Some(VersionNumber(v.0 + 1))
                } else {
                    None
                }
            };
            end = earlier_end(end, dep_end);
            i = i + 1;
        }
        proof {
            assert(deps@.take(i as int) =~= deps@);
        }
        end
    }

    /// Looks up the value of a key at a version. The answer is a match if a
    /// record of the key holds at the version, and a mismatch else; the graph
    /// itself rejects nothing.
    pub fn get(&self, key: VersionedGraphKey) -> (result: VersionedGraphResult<K>)
        requires
            self.wf(),
        ensures
            result == lookup(self@, key),
    {
        if (key.k.index as usize) < self.nodes.len() {
            let node = &self.nodes[key.k.index as usize];
            proof {
                assert(self@[key.k.index as int] == node@);
                assert(node.wf());
            }
            match node.holding_at(key.v) {
                Some(at) => VersionedGraphResult::Match(node.history[at].computed()),
                None => {
                    let p = node.position_after(key.v);
                    let previous = if p > 0 {
                        Some(node.history[p - 1].computed())
                    } else {
                        None
                    };
                    VersionedGraphResult::Mismatch(VersionedGraphResultMismatch { previous })
                },
            }
        } else {
            proof {
                lemma_leading_below(NodeView::<K>::blank().history, key.v.0 + 1);
            }
            VersionedGraphResult::Mismatch(VersionedGraphResultMismatch { previous: None })
        }
    }

    /// The keys that were read for the value that a lookup of `key` reports,
    /// as the value of the key or as the value before: the dependencies of
    /// the last record that begins at `key.v` or before.
    pub fn deps_of(&self, key: VersionedGraphKey) -> (deps: Vec<DiceKey>)
        requires
            self.wf(),
        ensures
            deps@ == recorded_deps(self@, key),
    {
        let mut deps: Vec<DiceKey> = Vec::new();
        if (key.k.index as usize) < self.nodes.len() {
            let node = &self.nodes[key.k.index as usize];
            proof {
                assert(self@[key.k.index as int] == node@);
                assert(node.wf());
            }
            let p = node.position_after(key.v);
            if p > 0 {
                let recorded = &node.history[p - 1].deps;
                let mut i: usize = 0;
                while i < recorded.len()
                    invariant
                        i <= recorded@.len(),
                        deps@ == recorded@.take(i as int),
                    decreases recorded@.len() - i,
                {
                    deps.push(recorded[i]);
                    proof {
                        assert(deps@ =~= recorded@.take(i + 1));
                    }
                    i = i + 1;
                }
                proof {
                    assert(recorded@.take(i as int) =~= recorded@);
                }
            }
        } else {
            proof {
                lemma_leading_below(NodeView::<K>::blank().history, key.v.0 + 1);
            }
        }
        deps
    }

    /// Whether the equality of the key type takes `value` for the value of the
    /// last record of `key.k` that begins at `key.v` or before.
    pub fn equal_to_previous(&self, key: VersionedGraphKey, value: &Arc<K::Value>) -> (equal: bool)
        requires
            self.wf(),
        ensures
            equal == equal_to_previous(self@, key, *value),
    {
        if (key.k.index as usize) < self.nodes.len() {
            let node = &self.nodes[key.k.index as usize];
            proof {
                assert(self@[key.k.index as int] == node@);
                assert(node.wf());
            }
            let p = node.position_after(key.v);
            if p > 0 {
                K::equality(&node.history[p - 1].value, value)
            } else {
                false
            }
        } else {
            proof {
                lemma_leading_below(NodeView::<K>::blank().history, key.v.0 + 1);
            }
            false
        }
    }

    /// Records `value` for `key`, where `equal` says whether the equality of
    /// the key type takes it for the value before. Gives the value that the
    /// key now has at the version, with the versions over which it holds, and
    /// says whether it is a new value.
    #[verifier::rlimit(50)]
    pub fn record(
        &mut self,
        key: VersionedGraphKey,
        value: Arc<K::Value>,
        reusable: ValueReusable,
        equal: bool,
        deps: Vec<DiceKey>,
        storage: StorageType,
        invalidation_paths: TrackedInvalidationPaths,
    ) -> (result: (DiceComputedValue<K>, bool))
        requires
            old(self).wf(),
        ensures
            final(self).wf(),
            (final(self)@, result.0, result.1) == updated(
                old(self)@,
                key,
                value,
                reusable,
                equal,
                deps@,
                storage,
                invalidation_paths,
            ),
            lookup(final(self)@, key) == VersionedGraphResult::Match(result.0),
    {
        self.grow(key.k);
        let ghost g = self@;
        let index = key.k.index as usize;
        let v = key.v;
        let until = self.valid_until(index, &deps, v);
        self.register_for(index, &deps, key);
        let ghost readers = self.rdeps@;
        let ghost r = recorded(
            g[index as int],
            v,
            value,
            reusable,
            equal,
            until,
            deps@,
            storage,
            invalidation_paths,
        );
        proof {
            assert(self@[index as int] == self.nodes@[index as int]@);
        }
        let node = &mut self.nodes[index];
        let result = node.record(v, value, reusable, equal, until, deps, storage, invalidation_paths);
        proof {
            assert(self@ =~= g.update(index as int, r.0));
            lemma_valid_until(g, g[index as int], deps@, v);
            lemma_recorded(
                g[index as int],
                v,
                value,
                reusable,
                equal,
                until,
                deps@,
                storage,
                invalidation_paths,
            );
            lemma_recorded_keeps_readers(
                readers,
                g[index as int],
                v,
                value,
                reusable,
                equal,
                until,
                deps@,
                storage,
                invalidation_paths,
                index as int,
            );
            assert forall|i: int| 0 <= i < self@.len() implies (#[trigger] self@[i]).wf() by {
                if i != index {
                    assert(self@[i] == g[i]);
                }
            }
            assert forall|j: int| 0 <= j < self@.len() implies node_registered(
                self.rdeps@,
                (#[trigger] self@[j]).history,
                j,
            ) by {
                if j != index {
                    assert(self@[j] == g[j]);
                }
            }
        }
        result
    }

    /// Until when a value of the node at `index` that is computed at `v` from
    /// `deps` holds.
    fn valid_until(&self, index: usize, deps: &Vec<DiceKey>, v: VersionNumber) -> (until: Option<
        VersionNumber,
    >)
        requires
            self.wf(),
            index < self.nodes@.len(),
        ensures
            until == valid_until(self@, self@[index as int], deps@, v),
    {
        let ends = self.deps_end(deps, v);
        let node = &self.nodes[index];
        proof {
            assert(self@[index as int] == node@);
            assert(node.wf());
        }
        let p = node.position_after(v);
        let begins = if p < node.history.len() {
            Some(node.history[p].valid.begin)
        } else {
            None
        };
        earlier_end(earlier_end(begins, node.next_dirty_after(v)), ends)
    }

    /// Lists `key.k` as a reader of each of `deps`, before a value that was
    /// computed from them is recorded at the node at `index`.
    fn register_for(&mut self, index: usize, deps: &Vec<DiceKey>, key: VersionedGraphKey)
        requires
            old(self).wf(),
            index == key.k.index,
            index < old(self).nodes@.len(),
        ensures
            final(self).wf(),
            final(self).nodes == old(self).nodes,
            entry_registered(final(self).rdeps@, deps@, index as int),
    {
        let ghost g = self@;
        let ghost old_rdeps = self.rdeps@;
        proof {
            assert(self@[index as int] == self.nodes@[index as int]@);
            assert(self.nodes@[index as int].wf());
        }
        let known_from = self.nodes[index].position_after(key.v);
        if known_from > 0 {
            proof {
                assert(node_registered(self.rdeps@, self@[index as int].history, index as int));
                assert(self@[index as int].history[known_from - 1]
                    == self.nodes@[index as int].history@[known_from - 1]@);
            }
            Self::register(
                &mut self.rdeps,
                deps,
                &self.nodes[index].history[known_from - 1].deps,
                key.k,
            );
        } else {
            let nothing: Vec<DiceKey> = Vec::new();
            Self::register(&mut self.rdeps, deps, &nothing, key.k);
        }
        proof {
            assert(self@ == g);
            assert forall|j: int| 0 <= j < g.len() implies node_registered(
                self.rdeps@,
                (#[trigger] g[j]).history,
                j,
            ) by {
                lemma_extends_keeps_readers(old_rdeps, self.rdeps@, g[j].history, j);
            }
        }
    }

    /// Records a value for a key at a version.
    ///
    /// Early cutoff: where `reusable` finds the value to be the one that the
    /// key had last before the version, the record of that value gains the
    /// versions from this one on instead of a new one being made, also where
    /// it ended earlier, and the value is reported as not new.
    pub fn update(
        &mut self,
        key: VersionedGraphKey,
        value: Arc<K::Value>,
        reusable: ValueReusable,
        deps: Vec<DiceKey>,
        storage: StorageType,
        invalidation_paths: TrackedInvalidationPaths,
    ) -> (result: (DiceComputedValue<K>, bool))
        requires
            old(self).wf(),
        ensures
            final(self).wf(),
            (final(self)@, result.0, result.1) == updated(
                old(self)@,
                key,
                value,
                reusable,
                equal_to_previous(old(self)@, key, value),
                deps@,
                storage,
                invalidation_paths,
            ),
            lookup(final(self)@, key) == VersionedGraphResult::Match(result.0),
    {
        let equal = match reusable {
            ValueReusable::EqualityBased => self.equal_to_previous(key, &value),
            ValueReusable::VersionBased(_) => false,
        };
        self.record(key, value, reusable, equal, deps, storage, invalidation_paths)
    }

    /// Whether the latest record of the node at position `j` holds at `v` or
    /// later and was computed from `d`.
    fn reads(&self, j: usize, d: DiceKey, v: VersionNumber) -> (b: bool)
        requires
            j < self.nodes@.len(),
        ensures
            b == reads_key(self@[j as int], d, v),
    {
        let node = &self.nodes[j];
        proof {
            assert(self@[j as int] == node@);
        }
        let n = node.history.len();
        if !node.reaches(v) {
            return false;
        }
        proof {
            assert(node@.history.last() == node.history@[n - 1]@);
        }
        match node.history[n - 1].storage {
            StorageType::Injected => false,
            StorageType::Normal => Self::is_one_of(&node.history[n - 1].deps, d),
        }
    }

    /// The keys that an invalidation of `root` at `v` reaches: from the root
    /// on, the readers of each key that is reached are looked at, and those
    /// whose latest record was computed from the key are reached too.
    #[verifier::rlimit(50)]
    fn dirtied_by(&self, root: DiceKey, v: VersionNumber) -> (flags: Vec<bool>)
        requires
            self.wf(),
            root.index < self.nodes@.len(),
        ensures
            flags@ == dirtied_by(self@, root, v),
            flags@.len() == self.nodes@.len(),
    {
        let n = self.nodes.len();
        let ghost graph = self@;
        let ghost all = dirtied_by(graph, root, v);
        let mut flags: Vec<bool> = Vec::new();
        let mut i: usize = 0;
        while i < n
            invariant
                i <= n,
                n == self.nodes@.len(),
                flags@.len() == i,
                forall|j: int| 0 <= j < i ==> flags@[j] == (j == root.index),
            decreases n - i,
        {
            flags.push(i == root.index as usize);
            i = i + 1;
        }
        let mut stack: Vec<u32> = Vec::new();
        stack.push(root.index);
        proof {
            lemma_dirtied_by_is_closed(graph, root, v);
            lemma_affected(graph, root, v, graph.len());
            assert(stack@[0] == root.index);
            let none = Seq::new(n as nat, |j: int| false);
            lemma_more_marks(none, flags@);
        }
        while stack.len() > 0
            invariant
                n == self.nodes@.len(),
                graph == self@,
                all == dirtied_by(graph, root, v),
                all.len() == n,
                self.wf(),
                root.index < n,
                flags@.len() == n,
                flags@[root.index as int],
                marked(flags@) <= n,
                forall|j: int| 0 <= j < n && flags@[j] ==> #[trigger] all[j],
                forall|s: int| 0 <= s < stack@.len() ==> (#[trigger] stack@[s]) < n && flags@[stack@[s] as int],
                forall|d: int|
                    0 <= d < n && #[trigger] flags@[d] ==> on_stack(stack@, d) || readers_marked(
                        graph,
                        flags@,
                        d,
                        v,
                    ),
                forall|j: int| 0 <= j < n && depends(#[trigger] graph[j], all, v) ==> all[j],
            decreases n - marked(flags@), stack@.len(),
        {
            let ghost stack_before = stack@;
            let ghost flags_before = flags@;
            let top = stack.pop();
            let d = match top {
                Some(d) => d,
                None => 0,
            };
            let key = DiceKey { index: d };
            proof {
                assert(stack_before[stack_before.len() - 1] == d);
                assert(d < n && flags@[d as int]);
            }
            let readers_len = if (d as usize) < self.rdeps.len() {
                self.rdeps[d as usize].len()
            } else {
                0
            };
            proof {
                assert forall|x: int| 0 <= x < n && #[trigger] flags@[x] implies x == d || on_stack(
                    stack@,
                    x,
                ) || readers_marked(graph, flags@, x, v) by {
                    if x != d && on_stack(stack_before, x) {
                        let at = choose|at: int|
                            0 <= at < stack_before.len() && #[trigger] stack_before[at] == x;
                        assert(stack@[at] == x);
                    }
                }
                assert forall|at: int| 0 <= at < stack@.len() implies (#[trigger] stack@[at]) < n
                    && flags@[stack@[at] as int] by {
                    assert(stack@[at] == stack_before[at]);
                }
            }
            let mut r: usize = 0;
            while r < readers_len
                invariant
                    n == self.nodes@.len(),
                    graph == self@,
                    all.len() == n,
                    self.wf(),
                    root.index < n,
                    d < n,
                    key == (DiceKey { index: d }),
                    flags@.len() == n,
                    flags@[root.index as int],
                    flags@[d as int],
                    marked(flags@) <= n,
                    marked(flags@) >= marked(flags_before),
                    stack@.len() + 1 >= stack_before.len(),
                    marked(flags@) == marked(flags_before) ==> stack@.len() + 1 == stack_before.len(),
                    r <= readers_len,
                    readers_len == (if d < self.rdeps@.len() {
                        self.rdeps@[d as int]@.len()
                    } else {
                        0
                    }),
                    forall|j: int| 0 <= j < n && flags@[j] ==> #[trigger] all[j],
                    forall|j: int| 0 <= j < n && flags_before[j] ==> #[trigger] flags@[j],
                    forall|s: int|
                        0 <= s < stack@.len() ==> (#[trigger] stack@[s]) < n
                            && flags@[stack@[s] as int],
                    forall|x: int|
                        0 <= x < n && #[trigger] flags@[x] ==> x == d || on_stack(stack@, x)
                            || readers_marked(graph, flags@, x, v),
                    forall|a: int|
                        0 <= a < r ==> {
                            let j = (#[trigger] self.rdeps@[d as int]@[a]).index;
                            j < n && reads_key(graph[j as int], key, v) ==> flags@[j as int]
                        },
                    forall|j: int| 0 <= j < n && depends(#[trigger] graph[j], all, v) ==> all[j],
                decreases readers_len - r,
            {
                let j = self.rdeps[d as usize][r].index;
                if (j as usize) < n && !flags[j as usize] && self.reads(j as usize, key, v) {
                    let ghost mid = flags@;
                    let ghost stack_mid = stack@;
                    flags.set(j as usize, true);
                    stack.push(j);
                    proof {
                        let now = flags@;
                        let node = graph[j as int];
                        assert(reads_key(node, key, v));
                        assert(all[d as int]);
                        assert(flag_of(all, key));
                        assert(depends(node, all, v)) by {
                            let deps = node.history.last().deps;
                            let at = choose|at: int| 0 <= at < deps.len() && deps[at] == key;
                            assert(flag_of(all, deps[at]));
                        }
                        assert(all[j as int]);
                        lemma_more_marks(mid, now);
                        assert(mid != now) by {
                            assert(!mid[j as int] && now[j as int]);
                        }
                        assert(stack@[stack_mid.len() as int] == j);
                        assert forall|s: int| 0 <= s < stack@.len() implies (#[trigger] stack@[s]) < n
                            && now[stack@[s] as int] by {
                            if s < stack_mid.len() {
                                assert(stack@[s] == stack_mid[s]);
                            }
                        }
                        assert forall|x: int| 0 <= x < n && #[trigger] now[x] implies x == d
                            || on_stack(stack@, x) || readers_marked(graph, now, x, v) by {
                            if x == j {
                                assert(stack@[stack_mid.len() as int] == x);
                            } else if x != d {
                                assert(mid[x]);
                                if on_stack(stack_mid, x) {
                                    let s = choose|s: int|
                                        0 <= s < stack_mid.len() && #[trigger] stack_mid[s] == x;
                                    assert(stack@[s] == x);
                                } else {
                                    assert(readers_marked(graph, mid, x, v));
                                }
                            }
                        }
                        assert forall|a: int| 0 <= a < r + 1 implies {
                            let jj = (#[trigger] self.rdeps@[d as int]@[a]).index;
                            jj < n && reads_key(graph[jj as int], key, v) ==> now[jj as int]
                        } by {
                            let jj = self.rdeps@[d as int]@[a].index;
                            if a < r {
                                if jj < n && reads_key(graph[jj as int], key, v) {
                                    assert(mid[jj as int]);
                                }
                            }
                        }
                    }
                }
                r = r + 1;
            }
            proof {
                // every reader of `d` is marked now
                assert(readers_marked(graph, flags@, d as int, v)) by {
                    assert forall|j: int|
                        0 <= j < graph.len() && reads_key(#[trigger] graph[j], key, v) implies flags@[j] by {
                        let node = graph[j];
                        let last = node.history.len() - 1;
                        assert(node_registered(self.rdeps@, node.history, j));
                        assert(entry_registered(self.rdeps@, node.history[last].deps, j));
                        let deps = node.history.last().deps;
                        let at = choose|at: int| 0 <= at < deps.len() && deps[at] == key;
                        assert(lists_reader(self.rdeps@, deps[at], j));
                        let listed = self.rdeps@[d as int]@;
                        let a = choose|a: int|
                            0 <= a < listed.len() && listed[a] == (DiceKey { index: j as u32 });
                        assert(self.rdeps@[d as int]@[a].index == j);
                    }
                }
                assert forall|x: int| 0 <= x < n && #[trigger] flags@[x] implies on_stack(
                    stack@,
                    x,
                ) || readers_marked(graph, flags@, x, v) by {}
            }
        }
        proof {
            assert forall|j: int| 0 <= j < graph.len() && depends(
                #[trigger] graph[j],
                flags@,
                v,
            ) implies flags@[j] by {
                let deps = graph[j].history.last().deps;
                let at = choose|at: int| 0 <= at < deps.len() && flag_of(flags@, #[trigger] deps[at]);
                let d = deps[at].index as int;
                assert(flags@[d]);
                assert(!on_stack(stack@, d));
                assert(readers_marked(graph, flags@, d, v));
                assert(deps[at] == (DiceKey { index: d as u32 }));
                assert(reads_key(graph[j], DiceKey { index: d as u32 }, v));
            }
            lemma_closed_marks_hold_all(graph, root, v, flags@, graph.len());
            assert(flags@ =~= all);
        }
        flags
    }

    /// Cuts the marked nodes at `v`.
    #[verifier::rlimit(50)]
    fn cut_marked(
        &mut self,
        flags: &Vec<bool>,
        root: DiceKey,
        v: VersionNumber,
        priority: InvalidationSourcePriority,
    )
        requires
            old(self).wf(),
            flags@.len() == old(self).nodes@.len(),
        ensures
            final(self)@ == cut_all(old(self)@, flags@, root, v, priority),
            final(self).nodes@.len() == old(self).nodes@.len(),
            final(self).rdeps_wf(),
    {
        let ghost g = self@;
        let mut i: usize = 0;
        while i < self.nodes.len()
            invariant
                i <= self.nodes@.len(),
                self.nodes@.len() == g.len(),
                flags@.len() == g.len(),
                graph_wf(g),
                self.rdeps == old(self).rdeps,
                forall|j: int| 0 <= j < g.len() ==> node_registered(
                    self.rdeps@,
                    (#[trigger] g[j]).history,
                    j,
                ),
                forall|j: int| 0 <= j < i ==> self@[j] == cut_all(g, flags@, root, v, priority)[j],
                forall|j: int| i <= j < g.len() ==> self@[j] == g[j],
            decreases self.nodes@.len() - i,
        {
            let ghost before = self@;
            let ghost c = cut_all(g, flags@, root, v, priority);
            if flags[i] {
                let node = &mut self.nodes[i];
                proof {
                    assert(before[i as int] == node@);
                    assert(g[i as int].wf());
                }
                let paths = node.invalidation_paths.dirtied(root, v, priority);
                node.cut(v, paths);
            }
            proof {
                assert(self@[i as int] == self.nodes@[i as int]@);
                assert(before[i as int] == g[i as int]);
                assert(self@[i as int] == c[i as int]);
                assert forall|j: int| 0 <= j < i implies self@[j] == c[j] by {
                    assert(self@[j] == self.nodes@[j]@);
                    assert(self@[j] == before[j]);
                }
                assert forall|j: int| i < j < g.len() implies self@[j] == g[j] by {
                    assert(self@[j] == self.nodes@[j]@);
                    assert(self@[j] == before[j]);
                }
            }
            i = i + 1;
        }
        proof {
            assert(self@ =~= cut_all(g, flags@, root, v, priority));
            assert forall|j: int| 0 <= j < self@.len() implies node_registered(
                self.rdeps@,
                (#[trigger] self@[j]).history,
                j,
            ) by {
                let h = g[j].history;
                assert(g[j].wf());
                assert(node_registered(self.rdeps@, h, j));
                if flags@[j] {
                    lemma_truncated(h, v);
                    let t = truncated(h, v);
                    assert(self@[j].history == t);
                    assert forall|e: int| 0 <= e < t.len() implies entry_registered(
                        self.rdeps@,
                        (#[trigger] t[e]).deps,
                        j,
                    ) by {
                        lemma_leading_below(h, v.0 as int);
                        if e < t.len() - 1 {
                            assert(t[e] == h[e]);
                        } else {
                            assert(t[e] == h[e].clipped(v));
                        }
                        assert(entry_registered(self.rdeps@, h[e].deps, j));
                    }
                } else {
                    assert(self@[j] == g[j]);
                }
            }
        }
    }

    /// Notes `key.v` as an invalidation of `key.k`.
    fn note(&mut self, key: VersionedGraphKey)
        requires
            key.k.index < old(self).nodes@.len(),
            old(self).rdeps_wf(),
        ensures
            final(self)@ == with_note(old(self)@, key),
            final(self).nodes@.len() == old(self).nodes@.len(),
            final(self).rdeps_wf(),
    {
        let ghost before = self@;
        let node = &mut self.nodes[key.k.index as usize];
        proof {
            assert(before[key.k.index as int] == node@);
        }
        node.note_dirty(key.v);
        proof {
            assert(self@ =~= with_note(before, key));
            assert forall|j: int| 0 <= j < self@.len() implies node_registered(
                self.rdeps@,
                (#[trigger] self@[j]).history,
                j,
            ) by {
                assert(self@[j].history == before[j].history);
            }
        }
    }

    /// Installs `value` for `key.k` from `key.v` on.
    fn install(&mut self, key: VersionedGraphKey, value: Arc<K::Value>, storage: StorageType)
        requires
            key.k.index < old(self).nodes@.len(),
            old(self).rdeps_wf(),
        ensures
            final(self)@ == installed(old(self)@, key, value, storage),
            final(self).rdeps_wf(),
    {
        let ghost before = self@;
        let node = &mut self.nodes[key.k.index as usize];
        proof {
            assert(before[key.k.index as int] == node@);
        }
        let end = node.next_dirty_after(key.v);
        let ghost history = node@.history;
        node.history.push(
            GraphEntry {
                valid: VersionRange { begin: key.v, end },
                earlier: None,
                value,
                storage,
                deps: Vec::new(),
                invalidation_paths: TrackedInvalidationPaths::clean(),
            },
        );
        proof {
            assert(node@.history =~= history.push(
                EntryView {
                    valid: VersionRange { begin: key.v, end },
                    earlier: None,
                    value,
                    storage,
                    deps: Seq::empty(),
                    invalidation_paths: TrackedInvalidationPaths::clean_spec(),
                },
            ));
            assert(self@ =~= installed(before, key, value, storage));
            assert forall|j: int| 0 <= j < self@.len() implies node_registered(
                self.rdeps@,
                (#[trigger] self@[j]).history,
                j,
            ) by {
                let h = before[j].history;
                let h2 = self@[j].history;
                assert(node_registered(self.rdeps@, h, j));
                if j == key.k.index {
                    assert forall|e: int| 0 <= e < h2.len() implies entry_registered(
                        self.rdeps@,
                        (#[trigger] h2[e]).deps,
                        j,
                    ) by {
                        if e < h.len() {
                            assert(h2[e] == h[e]);
                        }
                    }
                } else {
                    assert(self@[j] == before[j]);
                }
            }
        }
    }

    /// Whether the equality of the key type takes a value that `kind` brings
    /// for the value that `key.k` has at `key.v`.
    pub fn equal_to_current(&self, key: VersionedGraphKey, kind: &InvalidateKind<K>) -> (equal: bool)
        requires
            self.wf(),
        ensures
            equal == equal_to_current(self@, key, *kind),
    {
        match kind {
            InvalidateKind::ForceDirty => false,
            InvalidateKind::Update(value, _) => {
                if (key.k.index as usize) < self.nodes.len() {
                    let node = &self.nodes[key.k.index as usize];
                    proof {
                        assert(self@[key.k.index as int] == node@);
                        assert(node.wf());
                    }
                    match node.holding_at(key.v) {
                        Some(at) => K::equality(&node.history[at].value, value),
                        None => false,
                    }
                } else {
                    proof {
                        lemma_leading_below(NodeView::<K>::blank().history, key.v.0 + 1);
                    }
                    false
                }
            },
        }
    }

    /// Invalidates `key.k` at `key.v`, where `equal` says whether the equality
    /// of the key type takes a value that `kind` brings for the value that the
    /// key has. Says whether the invalidation changed anything for the key.
    #[verifier::rlimit(50)]
    pub fn invalidate_with(
        &mut self,
        key: VersionedGraphKey,
        kind: InvalidateKind<K>,
        priority: InvalidationSourcePriority,
        equal: bool,
    ) -> (changed: bool)
        requires
            old(self).wf(),
        ensures
            final(self).wf(),
            (final(self)@, changed) == invalidated(old(self)@, key, kind, priority, equal),
    {
        let ghost graph = self@;
        proof {
            lemma_invalidated_wf(graph, key, kind, priority, equal);
        }
        let index = key.k.index as usize;
        let v = key.v;
        if index < self.nodes.len() {
            let node = &self.nodes[index];
            proof {
                assert(graph[index as int] == node@);
                assert(node.wf());
            }
            match &kind {
                InvalidateKind::ForceDirty => {
                    let n = node.history.len();
                    if n > 0 {
                        proof {
                            assert(node@.history.last() == node.history@[n - 1]@);
                        }
                        match node.history[n - 1].storage {
                            StorageType::Injected => {
                                return false;
                            },
                            StorageType::Normal => {},
                        }
                    }
                    if !node.is_blank() && !node.reaches(v) {
                        self.note(key);
                        proof {
                            assert(grown(graph, key.k) == graph);
                        }
                        return false;
                    }
                },
                InvalidateKind::Update(_, _) => {
                    if equal {
                        match node.holding_at(v) {
                            Some(_) => {
                                return false;
                            },
                            None => {},
                        }
                    }
                },
            }
        } else {
            proof {
                lemma_leading_below(NodeView::<K>::blank().history, v.0 + 1);
            }
        }
        self.grow(key.k);
        let flags = self.dirtied_by(key.k, v);
        self.cut_marked(&flags, key.k, v, priority);
        self.note(key);
        match kind {
            InvalidateKind::ForceDirty => {},
            InvalidateKind::Update(value, storage) => {
                self.install(key, value, storage);
            },
        }
        true
    }

    /// Invalidates a key at a version: forces it dirty, or brings a value for
    /// it. Says whether that changed anything for the key; a transaction that
    /// changed nothing for any key issues no version.
    pub fn invalidate(
        &mut self,
        key: VersionedGraphKey,
        kind: InvalidateKind<K>,
        priority: InvalidationSourcePriority,
    ) -> (changed: bool)
        requires
            old(self).wf(),
        ensures
            final(self).wf(),
            (final(self)@, changed) == invalidated(
                old(self)@,
                key,
                kind,
                priority,
                equal_to_current(old(self)@, key, kind),
            ),
    {
        let equal = self.equal_to_current(key, &kind);
        self.invalidate_with(key, kind, priority, equal)
    }

    /// A snapshot of the graph for tools that show it: for each key that the
    /// graph knows something of, how many records it has, over which versions
    /// the latest holds, and how often the key was invalidated.
    pub fn introspect(&self) -> (snapshot: VersionedGraphIntrospectable)
        requires
            self.wf(),
        ensures
            snapshot.nodes@ == summaries(self@).filter(known_summary()),
    {
        let mut nodes: Vec<NodeIntrospectable> = Vec::new();
        let mut i: usize = 0;
        let ghost all = summaries(self@);
        proof {
            lemma_filter_empty::<NodeIntrospectable>(known_summary());
            assert(all.take(0) =~= Seq::<NodeIntrospectable>::empty());
        }
        while i < self.nodes.len()
            invariant
                i <= self.nodes@.len(),
                self.wf(),
                all == summaries(self@),
                nodes@ == all.take(i as int).filter(known_summary()),
            decreases self.nodes@.len() - i,
        {
            let node = &self.nodes[i];
            proof {
                lemma_filter_take_step(all, known_summary(), i as int);
                assert(self@[i as int] == node@);
            }
            if !node.is_blank() {
                let n = node.history.len();
                let latest = if n > 0 {
                    proof {
                        assert(node@.history.last() == node.history@[n - 1]@);
                    }
                    Some(node.history[n - 1].valid)
                } else {
                    None
                };
                nodes.push(
                    NodeIntrospectable {
                        key: DiceKey { index: i as u32 },
                        records: n,
                        latest,
                        invalidations: node.dirtied.len(),
                    },
                );
            }
            i = i + 1;
        }
        proof {
            assert(all.take(i as int) =~= all);
        }
        VersionedGraphIntrospectable { nodes }
    }

    /// How many keys the graph knows something of.
    pub fn key_count(&self) -> (n: usize)
        ensures
            n == self@.filter(known_pred()).len(),
    {
        let mut n: usize = 0;
        let mut i: usize = 0;
        proof {
            lemma_filter_empty::<NodeView<K>>(known_pred());
            assert(self@.take(0) =~= Seq::<NodeView<K>>::empty());
        }
        while i < self.nodes.len()
            invariant
                i <= self.nodes@.len(),
                n == self@.take(i as int).filter(known_pred()).len(),
                n <= i,
            decreases self.nodes@.len() - i,
        {
            proof {
                lemma_filter_take_step(self@, known_pred(), i as int);
                assert(self@[i as int] == self.nodes@[i as int]@);
            }
            if !self.nodes[i].is_blank() {
                n = n + 1;
            }
            i = i + 1;
        }
        proof {
            assert(self@.take(i as int) =~= self@);
        }
        n
    }
}

} // verus!
