//! The history of one key: its records, each with the range of versions over
//! which its value holds, and the versions at which the key was invalidated.

use std::sync::Arc;

use vstd::prelude::*;

use crate::dice::graph::model::recorded;
use crate::dice::graph::types::ValueReusable;
use crate::dice::key::DiceKey;
use crate::dice::key::Key;
use crate::dice::key::StorageType;
use crate::dice::value::DiceComputedValue;
use crate::dice::value::TrackedInvalidationPaths;
use crate::dice::value::dupe_arc;
use crate::dice::versions::VersionNumber;
use crate::dice::versions::VersionRange;
use crate::dice::versions::VersionRanges;
use crate::dice::versions::copy_of;
use crate::dice::versions::is_among;
use crate::dice::versions::earlier_end;
use crate::dice::versions::min_end;

verus! {

/// One record of a history, as the contracts see it: a value with the
/// versions over which it is known to hold. `valid` is the latest range of
/// them, by which the records are ordered and by which a lookup finds the
/// record; `earlier` are the ranges that the record held before.
pub struct EntryView<K: Key> {
    pub valid: VersionRange,
    pub earlier: Option<Box<VersionRanges>>,
    pub value: Arc<K::Value>,
    pub storage: StorageType,
    pub deps: Seq<DiceKey>,
    pub invalidation_paths: TrackedInvalidationPaths,
}

/// One node, as the contracts see it.
pub struct NodeView<K: Key> {
    pub history: Seq<EntryView<K>>,
    pub dirtied: Seq<VersionNumber>,
    pub invalidation_paths: TrackedInvalidationPaths,
}

impl<K: Key> EntryView<K> {
    /// What a reader of the record gets.
    pub open spec fn computed(self) -> DiceComputedValue<K> {
        DiceComputedValue {
            value: self.value,
            valid: self.versions(),
            invalidation_paths: self.invalidation_paths,
        }
    }

    /// The versions over which the value of the record is known to hold.
    pub open spec fn versions(self) -> VersionRanges {
        VersionRanges { latest: self.valid, earlier: self.earlier }
    }

    /// The record cut so that it holds at no version from `v` on.
    pub open spec fn clipped(self, v: VersionNumber) -> Self {
        if self.valid.reaches(v) {
            EntryView { valid: VersionRange { begin: self.valid.begin, end: Some(v) }, ..self }
        } else {
            self
        }
    }
}

/// Cuts a record at `v`.
pub open spec fn clip_at<K: Key>(v: VersionNumber) -> spec_fn(EntryView<K>) -> EntryView<K> {
    |entry: EntryView<K>| entry.clipped(v)
}

/// How many records at the head of `history` begin below `bound`.
pub open spec fn leading_below<K: Key>(history: Seq<EntryView<K>>, bound: int) -> int
    decreases history.len(),
{
    if history.len() == 0 {
        0
    } else if history[0].valid.begin.0 < bound {
        1 + leading_below(history.drop_first(), bound)
    } else {
        0
    }
}

/// Each record holds at some version, and a record ends before the next one
/// begins.
pub open spec fn history_wf<K: Key>(history: Seq<EntryView<K>>) -> bool {
    &&& forall|i: int| 0 <= i < history.len() ==> (#[trigger] history[i]).valid.well_formed()
    &&& forall|i: int, j: int|
        0 <= i < j < history.len() ==> (#[trigger] history[i]).valid.ends_by(
            (#[trigger] history[j]).valid.begin,
        )
}

/// The record of `history` that holds at `v`, if there is one: the last
/// record that begins at `v` or before, if it has not ended by `v`.
pub open spec fn entry_at<K: Key>(history: Seq<EntryView<K>>, v: VersionNumber) -> Option<
    EntryView<K>,
> {
    let p = leading_below(history, v.0 + 1);
    if p > 0 && history[p - 1].valid.contains_spec(v) {
        Some(history[p - 1])
    } else {
        None
    }
}

/// What is left of `history` when nothing holds from `v` on: the records
/// that begin before `v`, each cut at `v`.
pub open spec fn truncated<K: Key>(history: Seq<EntryView<K>>, v: VersionNumber) -> Seq<
    EntryView<K>,
> {
    history.take(leading_below(history, v.0 as int)).map_values(clip_at(v))
}

/// Whether some record of `history` holds at `v` or later.
pub open spec fn reaches<K: Key>(history: Seq<EntryView<K>>, v: VersionNumber) -> bool {
    history.len() > 0 && history.last().valid.reaches(v)
}

/// The first of the versions in `dirtied` that comes after `v`.
pub open spec fn next_dirty(dirtied: Seq<VersionNumber>, v: VersionNumber) -> Option<
    VersionNumber,
>
    decreases dirtied.len(),
{
    if dirtied.len() == 0 {
        None
    } else if dirtied.last().0 > v.0 {
        min_end(next_dirty(dirtied.drop_last(), v), Some(dirtied.last()))
    } else {
        next_dirty(dirtied.drop_last(), v)
    }
}

/// `dirtied` with `v` noted.
pub open spec fn noted(dirtied: Seq<VersionNumber>, v: VersionNumber) -> Seq<VersionNumber> {
    if dirtied.contains(v) {
        dirtied
    } else {
        dirtied.push(v)
    }
}

pub proof fn lemma_leading_below<K: Key>(history: Seq<EntryView<K>>, bound: int)
    ensures
        0 <= leading_below(history, bound) <= history.len(),
        forall|i: int|
            0 <= i < leading_below(history, bound) ==> (#[trigger] history[i]).valid.begin.0
                < bound,
        leading_below(history, bound) < history.len() ==> history[leading_below(
            history,
            bound,
        )].valid.begin.0 >= bound,
    decreases history.len(),
{
    if history.len() == 0 {
    } else if history[0].valid.begin.0 < bound {
        lemma_leading_below(history.drop_first(), bound);
        let p = leading_below(history.drop_first(), bound);
        assert forall|i: int| 0 <= i < 1 + p implies (#[trigger] history[i]).valid.begin.0
            < bound by {
            if i > 0 {
                assert(history.drop_first()[i - 1] == history[i]);
            }
        }
        if 1 + p < history.len() {
            assert(history.drop_first()[p] == history[1 + p]);
        }
    } else {
    }
}

/// The count of leading records below a bound is the first position at which
/// a record begins at the bound or above.
pub proof fn lemma_leading_below_is<K: Key>(history: Seq<EntryView<K>>, bound: int, p: int)
    requires
        0 <= p <= history.len(),
        forall|i: int| 0 <= i < p ==> (#[trigger] history[i]).valid.begin.0 < bound,
        p < history.len() ==> history[p].valid.begin.0 >= bound,
    ensures
        leading_below(history, bound) == p,
{
    lemma_leading_below(history, bound);
    let q = leading_below(history, bound);
    if q < p {
        assert(history[q].valid.begin.0 < bound);
    } else if q > p {
        assert(history[p].valid.begin.0 < bound);
    }
}

/// In a well-formed history the records begin in strictly rising order.
pub proof fn lemma_begins_rise<K: Key>(history: Seq<EntryView<K>>, i: int, j: int)
    requires
        history_wf(history),
        0 <= i < j < history.len(),
    ensures
        history[i].valid.begin.0 < history[j].valid.begin.0,
{
    assert(history[i].valid.well_formed());
    assert(history[i].valid.ends_by(history[j].valid.begin));
}

/// In a well-formed history a record holds at `v` exactly if `entry_at`
/// finds it: no other record holds at `v`.
pub proof fn lemma_entry_at_is_the_record<K: Key>(
    history: Seq<EntryView<K>>,
    v: VersionNumber,
    i: int,
)
    requires
        history_wf(history),
        0 <= i < history.len(),
        history[i].valid.contains_spec(v),
    ensures
        entry_at(history, v) == Some(history[i]),
        leading_below(history, v.0 + 1) == i + 1,
{
    if i + 1 < history.len() {
        assert(history[i].valid.ends_by(history[i + 1].valid.begin));
    }
    assert forall|j: int| 0 <= j < i + 1 implies (#[trigger] history[j]).valid.begin.0 < v.0
        + 1 by {
        if j < i {
            lemma_begins_rise(history, j, i);
        }
    }
    lemma_leading_below_is(history, v.0 + 1, i + 1);
}

/// What `entry_at` finds holds at `v` and is a record of the history.
pub proof fn lemma_entry_at_holds<K: Key>(history: Seq<EntryView<K>>, v: VersionNumber)
    ensures
        entry_at(history, v) matches Some(entry) ==> entry.valid.contains_spec(v)
            && history.contains(entry),
{
    lemma_leading_below(history, v.0 + 1);
}

/// Cutting a well-formed history at `v` changes at most the last record that
/// begins before `v`, and leaves a well-formed history of which nothing holds
/// at `v` or later.
#[verifier::rlimit(50)]
pub proof fn lemma_truncated<K: Key>(history: Seq<EntryView<K>>, v: VersionNumber)
    requires
        history_wf(history),
    ensures
        history_wf(truncated(history, v)),
        !reaches(truncated(history, v), v),
        forall|w: VersionNumber| w.0 >= v.0 ==> entry_at(truncated(history, v), w) is None,
        forall|w: VersionNumber|
            w.0 < v.0 ==> (entry_at(truncated(history, v), w) is Some <==> entry_at(history, w)
                is Some),
        ({
            let p = leading_below(history, v.0 as int);
            let t = truncated(history, v);
            &&& t.len() == p
            &&& forall|i: int| 0 <= i < p - 1 ==> t[i] == history[i]
            &&& p > 0 ==> t[p - 1] == history[p - 1].clipped(v)
        }),
{
    let p = leading_below(history, v.0 as int);
    let t = truncated(history, v);
    lemma_leading_below(history, v.0 as int);
    assert forall|i: int| 0 <= i < p - 1 implies t[i] == history[i] by {
        assert(history[i].valid.ends_by(history[p - 1].valid.begin));
        assert(history.take(p)[i] == history[i]);
    }
    if p > 0 {
        assert(history.take(p)[p - 1] == history[p - 1]);
    }
    assert forall|i: int| 0 <= i < t.len() implies (#[trigger] t[i]).valid.well_formed() by {
        assert(history.take(p)[i] == history[i]);
        assert(history[i].valid.well_formed());
    }
    assert forall|i: int, j: int| 0 <= i < j < t.len() implies (#[trigger] t[i]).valid.ends_by(
        (#[trigger] t[j]).valid.begin,
    ) by {
        assert(history.take(p)[i] == history[i]);
        assert(history.take(p)[j] == history[j]);
        assert(history[i].valid.ends_by(history[j].valid.begin));
    }
    assert forall|w: VersionNumber| w.0 >= v.0 implies entry_at(t, w) is None by {
        lemma_leading_below(t, w.0 + 1);
        let q = leading_below(t, w.0 + 1);
        if q > 0 {
            assert(history.take(p)[q - 1] == history[q - 1]);
        }
    }
    assert forall|w: VersionNumber| w.0 < v.0 implies (entry_at(t, w) is Some <==> entry_at(
        history,
        w,
    ) is Some) by {
        lemma_leading_below(t, w.0 + 1);
        lemma_leading_below(history, w.0 + 1);
        let q = leading_below(history, w.0 + 1);
        assert(q <= p) by {
            if q > p {
                assert(history[p].valid.begin.0 < w.0 + 1);
            }
        }
        assert forall|i: int| 0 <= i < q implies (#[trigger] t[i]).valid.begin.0 < w.0 + 1 by {
            assert(history.take(p)[i] == history[i]);
        }
        if q < t.len() {
            assert(history.take(p)[q] == history[q]);
        }
        lemma_leading_below_is(t, w.0 + 1, q);
        if q > 0 {
            assert(history.take(p)[q - 1] == history[q - 1]);
        }
    }
}

/// Cutting a history at `v` leaves the record that holds at an earlier
/// version in place, cut at `v`.
#[verifier::rlimit(50)]
pub proof fn lemma_truncated_keeps_earlier<K: Key>(
    history: Seq<EntryView<K>>,
    v: VersionNumber,
    w: VersionNumber,
)
    requires
        history_wf(history),
        w.0 < v.0,
    ensures
        entry_at(truncated(history, v), w) == match entry_at(history, w) {
            Some(entry) => Some(entry.clipped(v)),
            None => None,
        },
{
    let t = truncated(history, v);
    let p = leading_below(history, v.0 as int);
    lemma_truncated(history, v);
    lemma_leading_below(history, v.0 as int);
    lemma_leading_below(history, w.0 + 1);
    lemma_leading_below(t, w.0 + 1);
    let q = leading_below(history, w.0 + 1);
    assert(q <= p) by {
        if q > p {
            assert(history[p].valid.begin.0 < w.0 + 1);
        }
    }
    assert forall|i: int| 0 <= i < q implies (#[trigger] t[i]).valid.begin.0 < w.0 + 1 by {
        if i < p - 1 {
            assert(t[i] == history[i]);
        } else {
            assert(t[i] == history[i].clipped(v));
        }
    }
    if q < t.len() {
        if q < p - 1 {
            assert(t[q] == history[q]);
        } else {
            assert(t[q] == history[q].clipped(v));
        }
    }
    lemma_leading_below_is(t, w.0 + 1, q);
    if q > 0 {
        if q - 1 < p - 1 {
            assert(t[q - 1] == history[q - 1]);
            assert(history[q - 1].valid.ends_by(history[p - 1].valid.begin));
        } else {
            assert(t[q - 1] == history[q - 1].clipped(v));
        }
    }
}

/// The next invalidation after `v` comes after `v`, is among the versions
/// noted, and no noted version lies between.
pub proof fn lemma_next_dirty(dirtied: Seq<VersionNumber>, v: VersionNumber)
    ensures
        next_dirty(dirtied, v) matches Some(m) ==> m.0 > v.0 && dirtied.contains(m),
        forall|i: int|
            0 <= i < dirtied.len() && (#[trigger] dirtied[i]).0 > v.0 ==> (next_dirty(
                dirtied,
                v,
            ) matches Some(m) && m.0 <= dirtied[i].0),
    decreases dirtied.len(),
{
    if dirtied.len() > 0 {
        lemma_next_dirty(dirtied.drop_last(), v);
        let rest = next_dirty(dirtied.drop_last(), v);
        if let Some(m) = rest {
            let j = choose|j: int| 0 <= j < dirtied.drop_last().len() && dirtied.drop_last()[j] == m;
            assert(dirtied[j] == m);
        }
        assert forall|i: int| 0 <= i < dirtied.len() && (#[trigger] dirtied[i]).0 > v.0 implies (
        next_dirty(dirtied, v) matches Some(m) && m.0 <= dirtied[i].0) by {
            if i < dirtied.len() - 1 {
                assert(dirtied.drop_last()[i] == dirtied[i]);
            }
        }
    }
}

/// One record of a history.
pub struct GraphEntry<K: Key> {
    /// The latest range of versions over which the value holds.
    pub valid: VersionRange,
    /// The ranges over which the value held before.
    pub earlier: Option<Box<VersionRanges>>,
    pub value: Arc<K::Value>,
    pub storage: StorageType,
    /// The keys that were read to compute the value.
    pub deps: Vec<DiceKey>,
    pub invalidation_paths: TrackedInvalidationPaths,
}

impl<K: Key> View for GraphEntry<K> {
    type V = EntryView<K>;

    open spec fn view(&self) -> EntryView<K> {
        EntryView {
            valid: self.valid,
            earlier: self.earlier,
            value: self.value,
            storage: self.storage,
            deps: self.deps@,
            invalidation_paths: self.invalidation_paths,
        }
    }
}

/// The view of a record.
pub open spec fn entry_view<K: Key>() -> spec_fn(GraphEntry<K>) -> EntryView<K> {
    |entry: GraphEntry<K>| entry@
}

impl<K: Key> GraphEntry<K> {
    /// What a reader of the record gets.
    pub fn computed(&self) -> (computed: DiceComputedValue<K>)
        ensures
            computed == self@.computed(),
    {
        DiceComputedValue {
            value: dupe_arc(&self.value),
            valid: VersionRanges { latest: self.valid, earlier: copy_of(&self.earlier) },
            invalidation_paths: self.invalidation_paths,
        }
    }
}

/// The history of one key. A key of which the graph knows nothing has a
/// blank node: no record and no invalidation.
pub struct VersionedGraphNode<K: Key> {
    /// The records, in the order of their versions.
    pub history: Vec<GraphEntry<K>>,
    /// The versions at which the key itself was invalidated.
    pub dirtied: Vec<VersionNumber>,
    /// Why the node was last cut.
    pub invalidation_paths: TrackedInvalidationPaths,
}

impl<K: Key> View for VersionedGraphNode<K> {
    type V = NodeView<K>;

    open spec fn view(&self) -> NodeView<K> {
        NodeView {
            history: self.history@.map_values(entry_view()),
            dirtied: self.dirtied@,
            invalidation_paths: self.invalidation_paths,
        }
    }
}

impl<K: Key> NodeView<K> {
    pub open spec fn blank() -> Self {
        NodeView {
            history: Seq::empty(),
            dirtied: Seq::empty(),
            invalidation_paths: TrackedInvalidationPaths::clean_spec(),
        }
    }

    /// Whether the graph knows nothing of the key.
    pub open spec fn is_blank(self) -> bool {
        self.history.len() == 0 && self.dirtied.len() == 0
    }

    pub open spec fn wf(self) -> bool {
        history_wf(self.history)
    }

    /// The node after an invalidation reached it at `v`: nothing holds from
    /// `v` on, and the reason is noted.
    pub open spec fn cut(self, v: VersionNumber, paths: TrackedInvalidationPaths) -> Self {
        NodeView { history: truncated(self.history, v), invalidation_paths: paths, ..self }
    }
}

impl<K: Key> VersionedGraphNode<K> {
    pub open spec fn wf(&self) -> bool {
        self@.wf()
    }

    pub fn blank() -> (node: Self)
        ensures
            node@ == NodeView::<K>::blank(),
            node.wf(),
    {
        let node = VersionedGraphNode {
            history: Vec::new(),
            dirtied: Vec::new(),
            invalidation_paths: TrackedInvalidationPaths::clean(),
        };
        proof {
            assert(node@.history =~= Seq::empty());
        }
        node
    }

    pub fn is_blank(&self) -> (b: bool)
        ensures
            b == self@.is_blank(),
    {
        self.history.len() == 0 && self.dirtied.len() == 0
    }

    /// Whether some record holds at `v` or later.
    pub fn reaches(&self, v: VersionNumber) -> (b: bool)
        ensures
            b == reaches(self@.history, v),
    {
        let n = self.history.len();
        if n == 0 {
            false
        } else {
            proof {
                assert(self@.history.last() == self.history@[n - 1]@);
            }
            self.history[n - 1].valid.reaches_version(v)
        }
    }

    /// How many records begin at `v` or before.
    pub fn position_after(&self, v: VersionNumber) -> (p: usize)
        requires
            self.wf(),
        ensures
            p == leading_below(self@.history, v.0 + 1),
            p <= self.history@.len(),
    {
        let mut i: usize = self.history.len();
        while i > 0 && self.history[i - 1].valid.begin.0 > v.0
            invariant
                i <= self.history@.len(),
                i < self.history@.len() ==> self.history@[i as int].valid.begin.0 > v.0,
            decreases i,
        {
            i = i - 1;
        }
        proof {
            let h = self@.history;
            assert forall|j: int| 0 <= j < i implies (#[trigger] h[j]).valid.begin.0 < v.0
                + 1 by {
                if j < i - 1 {
                    lemma_begins_rise(h, j, i - 1);
                }
            }
            lemma_leading_below_is(h, v.0 + 1, i as int);
        }
        i
    }

    /// The position of the record that holds at `v`.
    pub fn holding_at(&self, v: VersionNumber) -> (found: Option<usize>)
        requires
            self.wf(),
        ensures
            match found {
                Some(i) => i < self.history@.len() && entry_at(self@.history, v) == Some(
                    self.history@[i as int]@,
                ) && i + 1 == leading_below(self@.history, v.0 + 1),
                None => entry_at(self@.history, v) is None,
            },
    {
        let p = self.position_after(v);
        if p > 0 && self.history[p - 1].valid.contains(v) {
            Some(p - 1)
        } else {
            None
        }
    }

    /// Cuts the history so that nothing holds from `v` on, and notes why. Says
    /// whether something did hold at `v` or later.
    #[verifier::rlimit(50)]
    pub fn cut(&mut self, v: VersionNumber, paths: TrackedInvalidationPaths) -> (reached: bool)
        requires
            old(self).wf(),
        ensures
            final(self).wf(),
            final(self)@ == old(self)@.cut(v, paths),
            reached == reaches(old(self)@.history, v),
    {
        let reached = self.reaches(v);
        let ghost h = self@.history;
        let ghost p = leading_below(h, v.0 as int);
        proof {
            lemma_leading_below(h, v.0 as int);
            lemma_truncated(h, v);
        }
        while self.history.len() > 0 && self.history[self.history.len() - 1].valid.begin.0 >= v.0
            invariant
                self.history@.len() <= h.len(),
                self.history@.len() >= p,
                self.history@.map_values(entry_view::<K>()) =~= h.take(self.history@.len() as int),
                self.dirtied == old(self).dirtied,
                p == leading_below(h, v.0 as int),
                forall|i: int| 0 <= i < p ==> (#[trigger] h[i]).valid.begin.0 < v.0,
            decreases self.history@.len(),
        {
            proof {
                let n = self.history@.len() as int;
                assert(h.take(n)[n - 1] == h[n - 1]);
                assert(self.history@.map_values(entry_view::<K>())[n - 1] == self.history@[n
                    - 1]@);
            }
            self.history.pop();
        }
        let n = self.history.len();
        proof {
            assert(h.take(n as int) =~= self.history@.map_values(entry_view::<K>()));
            if n > 0 {
                assert(h.take(n as int)[n - 1] == h[n - 1]);
                assert(self.history@.map_values(entry_view::<K>())[n - 1] == self.history@[n - 1]@);
            }
            assert forall|i: int| 0 <= i < n implies (#[trigger] h[i]).valid.begin.0 < v.0 by {
                if i < n - 1 {
                    lemma_begins_rise(h, i, n - 1);
                }
            }
            lemma_leading_below_is(h, v.0 as int, n as int);
        }
        if n > 0 && self.history[n - 1].valid.reaches_version(v) {
            let last = &mut self.history[n - 1];
            last.valid = VersionRange { begin: last.valid.begin, end: Some(v) };
        }
        self.invalidation_paths = paths;
        proof {
            let t = truncated(h, v);
            assert(self@.history.len() == t.len());
            assert forall|i: int| 0 <= i < t.len() implies self@.history[i] == t[i] by {
                assert(self@.history[i] == self.history@[i]@);
                assert(h.take(n as int)[i] == h[i]);
            }
            assert(self@.history =~= t);
        }
        reached
    }

    /// Records a value at `v` that holds up to `until`: nothing if the node has
    /// a value at `v`, in the record before `v` if the value continues it, and
    /// else in a record of its own.
    #[verifier::rlimit(50)]
    pub fn record(
        &mut self,
        v: VersionNumber,
        value: Arc<K::Value>,
        reusable: ValueReusable,
        equal: bool,
        until: Option<VersionNumber>,
        deps: Vec<DiceKey>,
        storage: StorageType,
        invalidation_paths: TrackedInvalidationPaths,
    ) -> (result: (DiceComputedValue<K>, bool))
        requires
            old(self).wf(),
        ensures
            ({
                let r = recorded(
                    old(self)@,
                    v,
                    value,
                    reusable,
                    equal,
                    until,
                    deps@,
                    storage,
                    invalidation_paths,
                );
                &&& final(self)@ == r.0
                &&& result.0 == r.1.computed()
                &&& result.1 == r.2
            }),
    {
        let ghost r = recorded(
            self@,
            v,
            value,
            reusable,
            equal,
            until,
            deps@,
            storage,
            invalidation_paths,
        );
        let p = self.position_after(v);
        if p > 0 && self.history[p - 1].valid.contains(v) {
            return (self.history[p - 1].computed(), false);
        }
        let continued = p > 0 && match self.history[p - 1].valid.end {
            Some(e) => e.0 <= v.0 && match reusable {
                ValueReusable::EqualityBased => equal,
                ValueReusable::VersionBased(at) => self.history[p - 1].valid.contains(at)
                    || is_among(&self.history[p - 1].earlier, at),
            },
            None => false,
        };
        if continued {
            let entry = &mut self.history[p - 1];
            let joins = match entry.valid.end {
                Some(e) => e.0 == v.0,
                None => false,
            };
            if joins {
                entry.valid = VersionRange { begin: entry.valid.begin, end: until };
            } else {
                let mut earlier: Option<Box<VersionRanges>> = None;
                std::mem::swap(&mut earlier, &mut entry.earlier);
                entry.earlier = Some(Box::new(VersionRanges { latest: entry.valid, earlier }));
                entry.valid = VersionRange { begin: v, end: until };
            }
            entry.deps = deps;
            entry.invalidation_paths = invalidation_paths;
            proof {
                assert(self@.history =~= r.0.history);
            }
            (self.history[p - 1].computed(), false)
        } else {
            let entry = GraphEntry {
                valid: VersionRange { begin: v, end: until },
                earlier: None,
                value,
                storage,
                deps,
                invalidation_paths,
            };
            let computed = entry.computed();
            self.history.insert(p, entry);
            proof {
                assert(self@.history =~= r.0.history);
            }
            (computed, true)
        }
    }

    /// Notes that the key itself was invalidated at `v`.
    pub fn note_dirty(&mut self, v: VersionNumber)
        ensures
            final(self)@.dirtied == noted(old(self)@.dirtied, v),
            final(self)@.history == old(self)@.history,
            final(self)@.invalidation_paths == old(self)@.invalidation_paths,
    {
        let mut i: usize = 0;
        while i < self.dirtied.len()
            invariant
                i <= self.dirtied@.len(),
                *self == *old(self),
                forall|j: int| 0 <= j < i ==> self.dirtied@[j] != v,
            decreases self.dirtied@.len() - i,
        {
            if self.dirtied[i].0 == v.0 {
                proof {
                    assert(self.dirtied@[i as int] == v);
                }
                return ;
            }
            i = i + 1;
        }
        self.dirtied.push(v);
    }

    /// The first invalidation of the key itself that comes after `v`.
    pub fn next_dirty_after(&self, v: VersionNumber) -> (next: Option<VersionNumber>)
        ensures
            next == next_dirty(self@.dirtied, v),
    {
        let mut next: Option<VersionNumber> = None;
        let mut i: usize = 0;
        proof {
            assert(self.dirtied@.take(0) =~= Seq::<VersionNumber>::empty());
        }
        while i < self.dirtied.len()
            invariant
                i <= self.dirtied@.len(),
                next == next_dirty(self.dirtied@.take(i as int), v),
            decreases self.dirtied@.len() - i,
        {
            proof {
                let s = self.dirtied@.take(i + 1);
                assert(s.drop_last() =~= self.dirtied@.take(i as int));
                assert(s.last() == self.dirtied@[i as int]);
            }
            if self.dirtied[i].0 > v.0 {
                next = earlier_end(next, Some(self.dirtied[i]));
            }
            i = i + 1;
        }
        proof {
            assert(self.dirtied@.take(i as int) =~= self.dirtied@);
        }
        next
    }
}

} // verus!
