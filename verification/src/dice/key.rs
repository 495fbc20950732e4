//! Keys, their interned handles and the interning table.

use std::collections::HashMap;

use vstd::prelude::*;

verus! {

/// Compact handle of an interned key.
#[derive(Clone, Copy, Debug, PartialEq, Eq, Structural, Hash)]
pub struct DiceKey {
    pub index: u32,
}

/// How the value of a key comes into the graph.
#[derive(Clone, Copy, Debug, PartialEq, Eq, Structural, Hash)]
pub enum StorageType {
    /// Computed and cached; may be invalidated.
    Normal,
    /// Supplied directly by a transaction; can only be replaced, never
    /// marked dirty.
    Injected,
}

/// Rank of an invalidation source. When two sources disagree about why a
/// node is dirty, the one of higher rank is reported.
#[derive(Clone, Copy, Debug, PartialEq, Eq, Structural, Hash)]
pub enum InvalidationSourcePriority {
    Normal,
    High,
}

impl InvalidationSourcePriority {
    pub open spec fn rank(self) -> nat {
        match self {
            InvalidationSourcePriority::Normal => 0,
            InvalidationSourcePriority::High => 1,
        }
    }

    /// Whether `self` ranks at least as high as `other`.
    pub fn at_least(self, other: InvalidationSourcePriority) -> (b: bool)
        ensures
            b == (self.rank() >= other.rank()),
    {
        match (self, other) {
            (InvalidationSourcePriority::Normal, InvalidationSourcePriority::High) => false,
            _ => true,
        }
    }
}

/// The key that asked for a computation, if any.
#[derive(Clone, Copy, Debug, PartialEq, Eq, Structural, Hash)]
pub enum ParentKey {
    /// The request came from outside of the graph.
    Root,
    /// The request came from the computation of this key.
    Parent(DiceKey),
}

/// What the engine needs to know of a user's key type.
///
/// The engine never runs a computation itself; it only stores what a
/// computation produced. Of the key it asks how values are stored, how
/// invalidations that start at it rank, when two keys are the same key, and
/// when two values count as equal for early cutoff.
///
/// Each function comes with a specification function that names what it
/// returns; the contracts of the engine speak of those. A key type that is
/// implemented outside of verified code gives each specification function
/// the body of the function that it names.
pub trait Key: Sized {
    type Value;

    /// The storage type of this key.
    spec fn storage_type_spec(&self) -> StorageType;

    fn storage_type(&self) -> (s: StorageType)
        ensures
            s == self.storage_type_spec(),
    ;

    /// The rank of invalidations that start at this key.
    spec fn priority_spec(&self) -> InvalidationSourcePriority;

    fn invalidation_source_priority(&self) -> (p: InvalidationSourcePriority)
        ensures
            p == self.priority_spec(),
    ;

    /// Identity of keys: an implementation compares the whole key.
    fn same_key(&self, other: &Self) -> (b: bool)
        ensures
            b == (*self == *other),
    ;

    /// A number that tells most keys apart; the interning table uses it to
    /// find a key fast.
    spec fn hash_spec(&self) -> u64;

    fn hash_code(&self) -> (h: u64)
        ensures
            h == self.hash_spec(),
    ;

    /// The early-cutoff predicate on values.
    spec fn equality_spec(x: &Self::Value, y: &Self::Value) -> bool;

    fn equality(x: &Self::Value, y: &Self::Value) -> (b: bool)
        ensures
            b == Self::equality_spec(x, y),
    ;
}

/// The interning table: an append-only list of the keys seen so far. The
/// handle of a key is its position.
pub struct KeyIndex<K: Key> {
    keys: Vec<K>,
    /// For each hash code the handles of the keys that have it.
    buckets: HashMap<u64, Vec<u32>>,
}

impl<K: Key> View for KeyIndex<K> {
    type V = Seq<K>;

    closed spec fn view(&self) -> Seq<K> {
        self.keys@
    }
}

impl<K: Key> KeyIndex<K> {
    /// No key is interned twice, every position fits a handle, and each key
    /// is found under its hash code.
    pub open spec fn wf(&self) -> bool {
        &&& self@.no_duplicates()
        &&& self@.len() <= u32::MAX
        &&& self.buckets_wf()
    }

    /// Each key is listed under its hash code, and only keys are listed.
    pub closed spec fn buckets_wf(&self) -> bool {
        &&& forall|i: int|
            0 <= i < self.keys@.len() ==> {
                let h = (#[trigger] self.keys@[i]).hash_spec();
                self.buckets@.contains_key(h) && self.buckets@[h]@.contains(i as u32)
            }
        &&& forall|h: u64, j: int|
            self.buckets@.contains_key(h) && 0 <= j < self.buckets@[h]@.len() ==> (
            #[trigger] self.buckets@[h]@[j]) < self.keys@.len()
    }

    /// The handle that `key` has, or would get, in the table `keys`.
    pub open spec fn handle_of(keys: Seq<K>, key: K) -> int {
        if keys.contains(key) {
            keys.index_of(key)
        } else {
            keys.len() as int
        }
    }

    /// The table `keys` after `key` was interned.
    pub open spec fn interned(keys: Seq<K>, key: K) -> Seq<K> {
        if keys.contains(key) {
            keys
        } else {
            keys.push(key)
        }
    }

    pub fn new() -> (index: Self)
        ensures
            index.wf(),
            index@ == Seq::<K>::empty(),
    {
        KeyIndex { keys: Vec::new(), buckets: HashMap::new() }
    }

    /// Number of interned keys.
    pub fn len(&self) -> (n: usize)
        ensures
            n == self@.len(),
    {
        self.keys.len()
    }

    /// The handle of `key`, if it was interned.
    #[verifier::rlimit(50)]
    pub fn index(&self, key: &K) -> (found: Option<DiceKey>)
        requires
            self.wf(),
        ensures
            found is Some <==> self@.contains(*key),
            found matches Some(k) ==> k.index == Self::handle_of(self@, *key),
    {
        broadcast use vstd::std_specs::hash::group_hash_axioms;

        let h = key.hash_code();
        match self.buckets.get(&h) {
            Some(bucket) => {
                let mut j: usize = 0;
                while j < bucket.len()
                    invariant
                        j <= bucket@.len(),
                        self.wf(),
                        self.buckets@.contains_key(h),
                        self.buckets@[h] == *bucket,
                        forall|a: int| 0 <= a < j ==> self.keys@[bucket@[a] as int] != *key,
                    decreases bucket@.len() - j,
                {
                    let i = bucket[j];
                    proof {
                        assert(self.buckets@[h]@[j as int] < self.keys@.len());
                    }
                    if self.keys[i as usize].same_key(key) {
                        proof {
                            assert(self@[i as int] == *key);
                            assert(self@.contains(*key));
                            let at = self@.index_of(*key);
                            assert(self@[at] == *key);
                            assert(at == i);
                        }
                        return Some(DiceKey { index: i });
                    }
                    j = j + 1;
                }
                proof {
                    if self@.contains(*key) {
                        let at = self@.index_of(*key);
                        assert(self.keys@[at] == *key);
                        assert(self.buckets@[h]@.contains(at as u32));
                        let a = choose|a: int|
                            0 <= a < bucket@.len() && bucket@[a] == at as u32;
                        assert(self.keys@[bucket@[a] as int] != *key);
                    }
                }
                None
            },
            None => {
                proof {
                    if self@.contains(*key) {
                        let at = self@.index_of(*key);
                        assert(self.keys@[at] == *key);
                        assert(self.buckets@.contains_key(self.keys@[at].hash_spec()));
                    }
                }
                None
            },
        }
    }

    /// Interns `key` and returns its handle. A key that was interned before
    /// keeps its handle; a new key gets the next free one.
    #[verifier::rlimit(50)]
    pub fn index_key(&mut self, key: K) -> (k: DiceKey)
        requires
            old(self).wf(),
            old(self)@.contains(key) || old(self)@.len() < u32::MAX,
        ensures
            final(self).wf(),
            final(self)@ == Self::interned(old(self)@, key),
            k.index == Self::handle_of(old(self)@, key),
            final(self)@[k.index as int] == key,
    {
        broadcast use vstd::std_specs::hash::group_hash_axioms;

        match self.index(&key) {
            Some(k) => {
                proof {
                    let j = self@.index_of(key);
                    assert(self@[j] == key);
                }
                k
            },
            None => {
                let i = self.keys.len();
                let h = key.hash_code();
                let mut bucket = match self.buckets.remove(&h) {
                    Some(bucket) => bucket,
                    None => Vec::new(),
                };
                let ghost listed = bucket@;
                bucket.push(i as u32);
                self.buckets.insert(h, bucket);
                self.keys.push(key);
                proof {
                    let before = old(self);
                    assert forall|a: int, b: int|
                        0 <= a < self@.len() && 0 <= b < self@.len() && a != b implies self@[a]
                        != self@[b] by {
                        if a < i && b < i {
                            assert(before@[a] != before@[b]);
                        } else if a < i {
                            assert(before@.contains(before@[a]));
                        } else {
                            assert(before@.contains(before@[b]));
                        }
                    }
                    assert(listed == (if before.buckets@.contains_key(h) {
                        before.buckets@[h]@
                    } else {
                        Seq::<u32>::empty()
                    }));
                    assert(self.buckets@[h]@ == listed.push(i as u32));
                    assert forall|a: int| 0 <= a < self.keys@.len() implies {
                        let ha = (#[trigger] self.keys@[a]).hash_spec();
                        self.buckets@.contains_key(ha) && self.buckets@[ha]@.contains(a as u32)
                    } by {
                        let ha = self.keys@[a].hash_spec();
                        if a < i {
                            assert(self.keys@[a] == before.keys@[a]);
                            assert(before.buckets@.contains_key(ha));
                            assert(before.buckets@[ha]@.contains(a as u32));
                            if ha == h {
                                let c = choose|c: int|
                                    0 <= c < listed.len() && listed[c] == a as u32;
                                assert(listed.push(i as u32)[c] == a as u32);
                            } else {
                                assert(self.buckets@[ha] == before.buckets@[ha]);
                            }
                        } else {
                            assert(listed.push(i as u32)[listed.len() as int] == i as u32);
                        }
                    }
                    assert forall|x: u64, j: int|
                        self.buckets@.contains_key(x) && 0 <= j < self.buckets@[x]@.len() implies (
                    #[trigger] self.buckets@[x]@[j]) < self.keys@.len() by {
                        if x == h {
                            if j < listed.len() {
                                assert(before.buckets@.contains_key(h));
                                assert(before.buckets@[h]@[j] < before.keys@.len());
                            }
                        } else {
                            assert(before.buckets@.contains_key(x));
                            assert(self.buckets@[x] == before.buckets@[x]);
                            assert(before.buckets@[x]@[j] < before.keys@.len());
                        }
                    }
                }
                DiceKey { index: i as u32 }
            },
        }
    }

    /// The key behind a handle.
    pub fn get(&self, k: DiceKey) -> (key: &K)
        requires
            k.index < self@.len(),
        ensures
            *key == self@[k.index as int],
    {
        &self.keys[k.index as usize]
    }
}

} // verus!
