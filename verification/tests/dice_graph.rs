use std::sync::Arc;

use buck2_engine::dice::graph::storage::VersionedGraph;
use buck2_engine::dice::graph::types::InvalidateKind;
use buck2_engine::dice::graph::types::ValueReusable;
use buck2_engine::dice::graph::types::VersionedGraphKey;
use buck2_engine::dice::graph::types::VersionedGraphResult;
use buck2_engine::dice::key::DiceKey;
use buck2_engine::dice::key::InvalidationSourcePriority;
use buck2_engine::dice::key::Key;
use buck2_engine::dice::key::KeyIndex;
use buck2_engine::dice::key::StorageType;
use buck2_engine::dice::value::reusable_since;
use buck2_engine::dice::value::InvalidationPath;
use buck2_engine::dice::value::TrackedInvalidationPaths;
use buck2_engine::dice::versions::VersionNumber;
use buck2_engine::dice::versions::VersionRange;

#[derive(Clone, PartialEq, Eq, Hash, Debug)]
struct K(&'static str);

impl Key for K {
    type Value = i64;

    fn storage_type_spec(&self) -> StorageType {
        StorageType::Normal
    }

    fn storage_type(&self) -> StorageType {
        StorageType::Normal
    }

    fn priority_spec(&self) -> InvalidationSourcePriority {
        InvalidationSourcePriority::Normal
    }

    fn invalidation_source_priority(&self) -> InvalidationSourcePriority {
        InvalidationSourcePriority::Normal
    }

    fn same_key(&self, other: &Self) -> bool {
        self == other
    }

    fn hash_spec(&self) -> u64 {
        self.hash_code()
    }

    fn hash_code(&self) -> u64 {
        self.0.len() as u64
    }

    fn equality_spec(x: &Self::Value, y: &Self::Value) -> bool {
        Self::equality(x, y)
    }

    // values are equal if they have the same size
    fn equality(x: &Self::Value, y: &Self::Value) -> bool {
        x.abs() == y.abs()
    }
}

fn at(v: u64, index: u32) -> VersionedGraphKey {
    VersionedGraphKey::new(VersionNumber::new(v), DiceKey { index })
}

fn range(begin: u64, end: Option<u64>) -> VersionRange {
    VersionRange::new(VersionNumber::new(begin), end.map(VersionNumber::new))
}

fn record(
    graph: &mut VersionedGraph<K>,
    key: VersionedGraphKey,
    value: i64,
    deps: &[u32],
) -> (i64, VersionRange, bool) {
    let (computed, new) = graph.update(
        key,
        Arc::new(value),
        ValueReusable::EqualityBased,
        deps.iter().map(|index| DiceKey { index: *index }).collect(),
        StorageType::Normal,
        TrackedInvalidationPaths::clean(),
    );
    (*computed.value(), computed.versions().latest(), new)
}

fn force_dirty(graph: &mut VersionedGraph<K>, key: VersionedGraphKey) -> bool {
    graph.invalidate(key, InvalidateKind::ForceDirty, InvalidationSourcePriority::Normal)
}

fn value_at(graph: &VersionedGraph<K>, key: VersionedGraphKey) -> Option<(i64, VersionRange)> {
    match graph.get(key) {
        VersionedGraphResult::Match(v) => Some((*v.value(), v.versions().latest())),
        VersionedGraphResult::Mismatch(_) => None,
        VersionedGraphResult::Rejected(_) => panic!("the graph rejects nothing"),
    }
}

fn previous_at(graph: &VersionedGraph<K>, key: VersionedGraphKey) -> Option<(i64, VersionRange)> {
    match graph.get(key) {
        VersionedGraphResult::Mismatch(m) => m.previous.map(|v| (*v.value(), v.versions().latest())),
        _ => panic!("the key has a value"),
    }
}

#[test]
fn unknown_key_is_a_mismatch() {
    let graph = VersionedGraph::<K>::new();
    assert_eq!(value_at(&graph, at(0, 0)), None);
    assert_eq!(previous_at(&graph, at(7, 100)), None);
    assert_eq!(graph.key_count(), 0);
    assert!(graph.introspect().nodes.is_empty());
    assert!(graph.deps_of(at(0, 3)).is_empty());
}

#[test]
fn recorded_value_holds_until_invalidated() {
    let mut graph = VersionedGraph::<K>::new();
    assert_eq!(record(&mut graph, at(3, 1), 10, &[]), (10, range(3, None), true));
    assert_eq!(value_at(&graph, at(3, 1)), Some((10, range(3, None))));
    assert_eq!(value_at(&graph, at(100, 1)), Some((10, range(3, None))));
    // not before the version at which it was computed
    assert_eq!(value_at(&graph, at(2, 1)), None);
    assert_eq!(previous_at(&graph, at(2, 1)), None);

    // a second value for a version that has one changes nothing
    assert_eq!(record(&mut graph, at(5, 1), 77, &[]), (10, range(3, None), false));

    assert!(force_dirty(&mut graph, at(6, 1)));
    assert_eq!(value_at(&graph, at(5, 1)), Some((10, range(3, Some(6)))));
    assert_eq!(value_at(&graph, at(6, 1)), None);
    assert_eq!(previous_at(&graph, at(9, 1)), Some((10, range(3, Some(6)))));
    // dirty already: nothing changes
    assert!(!force_dirty(&mut graph, at(6, 1)));
    assert!(!force_dirty(&mut graph, at(8, 1)));

    // key 0 was made room for, but nothing is known of it
    assert_eq!(graph.key_count(), 1);
    let snapshot = graph.introspect();
    assert_eq!(snapshot.nodes.len(), 1);
    assert_eq!(snapshot.nodes[0].key, DiceKey { index: 1 });
    assert_eq!(snapshot.nodes[0].records, 1);
    assert_eq!(snapshot.nodes[0].latest, Some(range(3, Some(6))));
    assert_eq!(snapshot.nodes[0].invalidations, 2);
}

#[test]
fn equal_value_extends_the_record() {
    let mut graph = VersionedGraph::<K>::new();
    assert_eq!(record(&mut graph, at(1, 0), 5, &[]), (5, range(1, None), true));
    assert!(force_dirty(&mut graph, at(2, 0)));
    // the value that is kept is the one before
    assert_eq!(record(&mut graph, at(2, 0), -5, &[]), (5, range(1, None), false));
    assert_eq!(value_at(&graph, at(1, 0)), Some((5, range(1, None))));

    assert!(force_dirty(&mut graph, at(3, 0)));
    assert_eq!(record(&mut graph, at(3, 0), 6, &[]), (6, range(3, None), true));
    assert_eq!(value_at(&graph, at(2, 0)), Some((5, range(1, Some(3)))));
    assert_eq!(graph.introspect().nodes[0].records, 2);

    // an equal value that comes later than the end of the record before continues it too:
    // the record gains the versions from there on, the versions between stay outside
    assert!(force_dirty(&mut graph, at(4, 0)));
    let (computed, new) = graph.update(
        at(6, 0),
        Arc::new(-6),
        ValueReusable::EqualityBased,
        vec![],
        StorageType::Normal,
        TrackedInvalidationPaths::clean(),
    );
    assert_eq!((*computed.value(), new), (6, false));
    assert_eq!(computed.versions().latest(), range(6, None));
    assert_eq!(computed.versions().count(), 2);
    for (v, held) in [(2, false), (3, true), (4, false), (5, false), (6, true), (100, true)] {
        assert_eq!(computed.versions().contains(VersionNumber::new(v)), held);
    }
    assert_eq!(value_at(&graph, at(4, 0)), None);
    assert_eq!(value_at(&graph, at(5, 0)), None);
    assert_eq!(value_at(&graph, at(6, 0)), Some((6, range(6, None))));
    assert_eq!(graph.introspect().nodes[0].records, 2);

    // a value that is not equal gets a record of its own
    assert!(force_dirty(&mut graph, at(8, 0)));
    assert_eq!(record(&mut graph, at(9, 0), 7, &[]), (7, range(9, None), true));
    assert_eq!(graph.introspect().nodes[0].records, 3);
}

#[test]
fn value_is_taken_again_while_what_it_read_holds() {
    let value = |value: i64, ranges: &[(u64, Option<u64>)]| {
        let mut graph = VersionedGraph::<K>::new();
        let mut last = None;
        for (begin, end) in ranges {
            let (computed, _) = graph.update(
                at(*begin, 0),
                Arc::new(value),
                ValueReusable::EqualityBased,
                vec![],
                StorageType::Normal,
                TrackedInvalidationPaths::clean(),
            );
            if let Some(end) = end {
                force_dirty(&mut graph, at(*end, 0));
                last = match graph.get(at(*begin, 0)) {
                    VersionedGraphResult::Match(v) => Some(v),
                    _ => panic!("the value was recorded"),
                };
            } else {
                last = Some(computed);
            }
        }
        last.unwrap()
    };
    let previous = value(1, &[(2, Some(4))]);
    let deps = vec![DiceKey { index: 1 }, DiceKey { index: 2 }];
    // both were read at version 2 and hold there still, one of them across a gap
    let found = vec![value(10, &[(1, None)]), value(20, &[(2, Some(3)), (5, None)])];
    assert_eq!(found[1].versions().count(), 2);
    assert_eq!(reusable_since(&previous, &deps, &found), Some(VersionNumber::new(2)));
    // one of them has a value that began later
    let found = vec![value(10, &[(1, None)]), value(20, &[(3, None)])];
    assert_eq!(reusable_since(&previous, &deps, &found), None);
    // a value that read nothing is computed again
    assert_eq!(reusable_since(&previous, &vec![], &vec![]), None);
    // one value for each key is needed
    assert_eq!(reusable_since(&previous, &deps, &vec![value(10, &[(1, None)])]), None);
}

#[test]
fn version_based_reuse() {
    let mut graph = VersionedGraph::<K>::new();
    record(&mut graph, at(1, 0), 5, &[]);
    assert!(force_dirty(&mut graph, at(4, 0)));
    let reuse = |graph: &mut VersionedGraph<K>, v: u64, verified: u64| {
        let (computed, new) = graph.update(
            at(v, 0),
            Arc::new(99),
            ValueReusable::VersionBased(VersionNumber::new(verified)),
            vec![],
            StorageType::Normal,
            TrackedInvalidationPaths::clean(),
        );
        (*computed.value(), computed.versions().latest(), new)
    };
    // the value before did not hold at version 0: a new record
    let mut other = VersionedGraph::<K>::new();
    record(&mut other, at(1, 0), 5, &[]);
    assert!(force_dirty(&mut other, at(4, 0)));
    let (computed, new) = other.update(
        at(4, 0),
        Arc::new(99),
        ValueReusable::VersionBased(VersionNumber::new(0)),
        vec![],
        StorageType::Normal,
        TrackedInvalidationPaths::clean(),
    );
    assert_eq!((*computed.value(), computed.versions().latest(), new), (99, range(4, None), true));
    // it held at version 3: the record goes on, whatever the value handed in
    assert_eq!(reuse(&mut graph, 4, 3), (5, range(1, None), false));
}

#[test]
fn invalidation_reaches_what_was_computed_from_the_key() {
    let mut graph = VersionedGraph::<K>::new();
    // 0 <- 1 <- 2 <- 3, and 4 on its own
    record(&mut graph, at(1, 0), 1, &[]);
    record(&mut graph, at(1, 1), 2, &[0]);
    record(&mut graph, at(1, 2), 3, &[1, 4]);
    record(&mut graph, at(1, 3), 4, &[2]);
    assert_eq!(graph.deps_of(at(1, 2)), vec![DiceKey { index: 1 }, DiceKey { index: 4 }]);
    // key 4 had no value when key 2 read it: key 2 holds at that version alone
    assert_eq!(value_at(&graph, at(1, 2)), Some((3, range(1, Some(2)))));
    assert_eq!(value_at(&graph, at(1, 3)), Some((4, range(1, Some(2)))));

    let mut graph = VersionedGraph::<K>::new();
    record(&mut graph, at(1, 4), 0, &[]);
    record(&mut graph, at(1, 0), 1, &[]);
    record(&mut graph, at(1, 1), 2, &[0]);
    record(&mut graph, at(1, 2), 3, &[1, 4]);
    record(&mut graph, at(1, 3), 4, &[2]);
    assert_eq!(value_at(&graph, at(9, 3)), Some((4, range(1, None))));

    assert!(graph.invalidate(
        at(5, 0),
        InvalidateKind::ForceDirty,
        InvalidationSourcePriority::High
    ));
    for index in 0..4 {
        assert_eq!(value_at(&graph, at(5, index)), None);
        assert_eq!(value_at(&graph, at(4, index)).map(|v| v.1), Some(range(1, Some(5))));
    }
    assert_eq!(value_at(&graph, at(5, 4)), Some((0, range(1, None))));
    assert_eq!(graph.introspect().nodes[3].invalidations, 0);
    assert_eq!(graph.introspect().nodes[0].invalidations, 1);

    // a value that is computed for an earlier version ends where what it read ends
    let mut late = VersionedGraph::<K>::new();
    record(&mut late, at(1, 0), 1, &[]);
    assert!(force_dirty(&mut late, at(5, 0)));
    assert_eq!(record(&mut late, at(3, 1), 2, &[0]), (2, range(3, Some(5)), true));
    // and a value of the key itself ends at its next invalidation
    let mut late = VersionedGraph::<K>::new();
    assert!(force_dirty(&mut late, at(5, 0)));
    assert!(!force_dirty(&mut late, at(9, 0)));
    assert_eq!(record(&mut late, at(3, 0), 2, &[]), (2, range(3, Some(5)), true));
    assert_eq!(record(&mut late, at(7, 0), 3, &[]), (3, range(7, Some(9)), true));
    assert_eq!(record(&mut late, at(9, 0), 4, &[]), (4, range(9, None), true));
    assert_eq!(record(&mut late, at(1, 0), 5, &[]), (5, range(1, Some(3)), true));
    assert_eq!(late.introspect().nodes[0].records, 4);
}

#[test]
fn injected_value_is_replaced_not_dirtied() {
    let mut graph = VersionedGraph::<K>::new();
    let inject = |graph: &mut VersionedGraph<K>, v: u64, value: i64| {
        graph.invalidate(
            at(v, 0),
            InvalidateKind::Update(Arc::new(value), StorageType::Injected),
            InvalidationSourcePriority::Normal,
        )
    };
    assert!(inject(&mut graph, 1, 5));
    assert_eq!(value_at(&graph, at(1, 0)), Some((5, range(1, None))));
    record(&mut graph, at(1, 1), 50, &[0]);

    // an equal value changes nothing
    assert!(!inject(&mut graph, 2, -5));
    assert_eq!(value_at(&graph, at(2, 0)), Some((5, range(1, None))));
    assert_eq!(value_at(&graph, at(2, 1)), Some((50, range(1, None))));

    // an injected value cannot be forced dirty
    assert!(!force_dirty(&mut graph, at(2, 0)));
    assert_eq!(value_at(&graph, at(2, 0)), Some((5, range(1, None))));

    // another value replaces it, and what was computed from it is dirty
    assert!(inject(&mut graph, 2, 6));
    assert_eq!(value_at(&graph, at(1, 0)), Some((5, range(1, Some(2)))));
    assert_eq!(value_at(&graph, at(2, 0)), Some((6, range(2, None))));
    assert_eq!(value_at(&graph, at(2, 1)), None);
    assert_eq!(value_at(&graph, at(1, 1)), Some((50, range(1, Some(2)))));
}

#[test]
fn invalidation_paths_follow_the_priority() {
    let clean = TrackedInvalidationPaths::clean();
    assert_eq!(clean.normal, InvalidationPath::Clean);
    assert_eq!(clean.high, InvalidationPath::Clean);
    let k = DiceKey { index: 3 };
    let v = VersionNumber::new(2);
    let path = InvalidationPath::Invalidated { source: k, version: v };
    let normal = clean.dirtied(k, v, InvalidationSourcePriority::Normal);
    assert_eq!((normal.normal, normal.high), (path, InvalidationPath::Clean));
    let high = clean.dirtied(k, v, InvalidationSourcePriority::High);
    assert_eq!((high.normal, high.high), (path, path));
    // an invalidation of normal rank leaves the one of high rank in place
    let later = InvalidationPath::Invalidated { source: DiceKey { index: 4 }, version: VersionNumber::new(3) };
    let both = high.dirtied(DiceKey { index: 4 }, VersionNumber::new(3), InvalidationSourcePriority::Normal);
    assert_eq!((both.normal, both.high), (later, path));
    assert!(InvalidationSourcePriority::High.at_least(InvalidationSourcePriority::Normal));
    assert!(!InvalidationSourcePriority::Normal.at_least(InvalidationSourcePriority::High));
    assert!(InvalidationSourcePriority::Normal.at_least(InvalidationSourcePriority::Normal));
}

#[test]
fn keys_are_interned_once() {
    let mut index = KeyIndex::<K>::new();
    assert_eq!(index.index(&K("a")), None);
    assert_eq!(index.index_key(K("a")), DiceKey { index: 0 });
    assert_eq!(index.index_key(K("b")), DiceKey { index: 1 });
    assert_eq!(index.index_key(K("a")), DiceKey { index: 0 });
    assert_eq!(index.len(), 2);
    assert_eq!(index.index(&K("b")), Some(DiceKey { index: 1 }));
    assert_eq!(*index.get(DiceKey { index: 1 }), K("b"));
}

#[test]
fn version_ranges() {
    let open = range(3, None);
    assert!(!open.contains(VersionNumber::new(2)));
    assert!(open.contains(VersionNumber::new(3)));
    assert!(open.contains(VersionNumber::new(u64::MAX)));
    assert!(open.reaches_version(VersionNumber::new(u64::MAX)));
    let closed = range(3, Some(5));
    assert!(closed.contains(VersionNumber::new(4)));
    assert!(!closed.contains(VersionNumber::new(5)));
    assert!(closed.reaches_version(VersionNumber::new(4)));
    assert!(!closed.reaches_version(VersionNumber::new(5)));
    assert_eq!((closed.begin(), closed.end()), (VersionNumber::new(3), Some(VersionNumber::new(5))));
    let mut v = VersionNumber::zero();
    v.inc();
    assert_eq!(v.value(), 1);
}

#[test]
fn invalidation_follows_long_chains_and_wide_fans() {
    let mut graph = VersionedGraph::<K>::new();
    let n: u32 = 3000;
    record(&mut graph, at(1, 0), 0, &[]);
    // a chain 0 <- 1 <- ... <- n, and a fan of n keys that all read key 0
    for index in 1..=n {
        record(&mut graph, at(1, index), index as i64, &[index - 1]);
    }
    for index in n + 1..=2 * n {
        record(&mut graph, at(1, index), index as i64, &[0, index - n]);
    }
    // a key that reads nothing of this
    record(&mut graph, at(1, 2 * n + 1), 7, &[]);
    assert_eq!(graph.key_count(), 2 * n as usize + 2);

    assert!(force_dirty(&mut graph, at(2, n / 2)));
    // the chain above the key and the keys of the fan that read it are dirty
    assert_eq!(value_at(&graph, at(2, n / 2 - 1)).map(|v| v.1), Some(range(1, None)));
    assert_eq!(value_at(&graph, at(2, n / 2)), None);
    assert_eq!(value_at(&graph, at(2, n)), None);
    assert_eq!(value_at(&graph, at(2, n + n / 2)), None);
    assert_eq!(value_at(&graph, at(2, n + n / 2 - 1)).map(|v| v.1), Some(range(1, None)));
    assert_eq!(value_at(&graph, at(2, 2 * n)), None);
    assert_eq!(value_at(&graph, at(2, 2 * n + 1)).map(|v| v.1), Some(range(1, None)));

    assert!(force_dirty(&mut graph, at(3, 0)));
    for index in 0..=2 * n {
        assert_eq!(value_at(&graph, at(3, index)), None);
    }
    assert_eq!(value_at(&graph, at(3, 2 * n + 1)).map(|v| v.1), Some(range(1, None)));
    // what was computed again no longer reads the key: it is not reached
    record(&mut graph, at(3, 0), 1, &[]);
    record(&mut graph, at(3, 5), 1, &[]);
    record(&mut graph, at(3, 6), 1, &[5]);
    assert!(force_dirty(&mut graph, at(4, 0)));
    assert_eq!(value_at(&graph, at(4, 5)).map(|v| v.1), Some(range(3, None)));
    assert_eq!(value_at(&graph, at(4, 6)).map(|v| v.1), Some(range(3, None)));
}
