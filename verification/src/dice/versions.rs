//! Version numbers, epochs and ranges of versions.

use vstd::prelude::*;

verus! {

/// The logical timestamp of the whole graph.
#[derive(Clone, Copy, Debug, PartialEq, Eq, Structural, Hash)]
pub struct VersionNumber(pub u64);

impl VersionNumber {
    pub fn new(num: u64) -> (v: Self)
        ensures
            v.0 == num,
    {
        VersionNumber(num)
    }

    /// The version of a graph that no transaction has changed yet.
    pub fn zero() -> (v: Self)
        ensures
            v.0 == 0,
    {
        VersionNumber(0)
    }

    pub fn value(&self) -> (num: u64)
        ensures
            num == self.0,
    {
        self.0
    }

    /// Moves to the next version.
    pub fn inc(&mut self)
        requires
            old(self).0 < u64::MAX,
        ensures
            final(self).0 == old(self).0 + 1,
    {
        self.0 = self.0 + 1;
    }
}

/// The generation of the shared cache of a version. Each time a cache is
/// created, it gets an epoch that no cache had before.
#[derive(Clone, Copy, Debug, PartialEq, Eq, Structural, Hash)]
pub struct VersionEpoch(pub u64);

impl VersionEpoch {
    pub fn value(&self) -> (num: u64)
        ensures
            num == self.0,
    {
        self.0
    }
}

/// The versions from `begin` on, up to but not including `end`; all later
/// versions where there is no `end`.
#[derive(Clone, Copy, Debug, PartialEq, Eq, Structural, Hash)]
pub struct VersionRange {
    pub begin: VersionNumber,
    pub end: Option<VersionNumber>,
}

impl VersionRange {
    /// Whether the range holds at least one version.
    pub open spec fn well_formed(self) -> bool {
        self.end matches Some(e) ==> self.begin.0 < e.0
    }

    pub open spec fn contains_spec(self, v: VersionNumber) -> bool {
        &&& self.begin.0 <= v.0
        &&& self.end matches Some(e) ==> v.0 < e.0
    }

    /// Whether every version of the range is below `v`.
    pub open spec fn ends_by(self, v: VersionNumber) -> bool {
        self.end matches Some(e) && e.0 <= v.0
    }

    /// Whether the range holds a version that is `v` or later.
    pub open spec fn reaches(self, v: VersionNumber) -> bool {
        !self.ends_by(v)
    }

    pub fn new(begin: VersionNumber, end: Option<VersionNumber>) -> (r: Self)
        ensures
            r.begin == begin,
            r.end == end,
    {
        VersionRange { begin, end }
    }

    pub fn begin(&self) -> (v: VersionNumber)
        ensures
            v == self.begin,
    {
        self.begin
    }

    pub fn end(&self) -> (v: Option<VersionNumber>)
        ensures
            v == self.end,
    {
        self.end
    }

    #[verifier::when_used_as_spec(contains_spec)]
    pub fn contains(self, v: VersionNumber) -> (b: bool)
        ensures
            b == self.contains_spec(v),
    {
        if self.begin.0 > v.0 {
            return false;
        }
        match self.end {
            Some(e) => v.0 < e.0,
            None => true,
        }
    }

    /// Whether the range holds a version that is `v` or later.
    pub fn reaches_version(self, v: VersionNumber) -> (b: bool)
        ensures
            b == self.reaches(v),
    {
        match self.end {
            Some(e) => e.0 > v.0,
            None => true,
        }
    }
}

/// The versions over which a value is known to hold: the range that was
/// noted last, and before it the ranges that were noted earlier. The versions
/// between two of the ranges are not among them.
#[derive(Debug, PartialEq, Eq)]
pub struct VersionRanges {
    pub latest: VersionRange,
    pub earlier: Option<Box<VersionRanges>>,
}

/// Whether `v` is in one of the ranges of `ranges`; in none where there are
/// no ranges.
pub open spec fn among(ranges: Option<Box<VersionRanges>>, v: VersionNumber) -> bool
    decreases ranges,
{
    match ranges {
        Some(list) => list.latest.contains_spec(v) || among(list.earlier, v),
        None => false,
    }
}

/// The ranges of `ranges`, the earliest first.
pub open spec fn ranges_of(ranges: Option<Box<VersionRanges>>) -> Seq<VersionRange>
    decreases ranges,
{
    match ranges {
        Some(list) => ranges_of(list.earlier).push(list.latest),
        None => Seq::empty(),
    }
}

/// A version is in one of the ranges exactly if one of the ranges in the
/// sequence holds it.
pub proof fn lemma_among_is_in_a_range(ranges: Option<Box<VersionRanges>>, v: VersionNumber)
    ensures
        among(ranges, v) <==> exists|i: int|
            0 <= i < ranges_of(ranges).len() && (#[trigger] ranges_of(ranges)[i]).contains_spec(v),
    decreases ranges,
{
    match ranges {
        Some(list) => {
            lemma_among_is_in_a_range(list.earlier, v);
            let all = ranges_of(ranges);
            let before = ranges_of(list.earlier);
            if among(ranges, v) {
                if list.latest.contains_spec(v) {
                    assert(all[all.len() - 1].contains_spec(v));
                } else {
                    let i = choose|i: int| 0 <= i < before.len() && (#[trigger] before[i]).contains_spec(v);
                    assert(all[i].contains_spec(v));
                }
            }
            if exists|i: int| 0 <= i < all.len() && (#[trigger] all[i]).contains_spec(v) {
                let i = choose|i: int| 0 <= i < all.len() && (#[trigger] all[i]).contains_spec(v);
                if i < before.len() {
                    assert(before[i].contains_spec(v));
                }
            }
        },
        None => {},
    }
}

/// A copy of the ranges.
pub fn copy_of(ranges: &Option<Box<VersionRanges>>) -> (copy: Option<Box<VersionRanges>>)
    ensures
        copy == *ranges,
    decreases *ranges,
{
    match ranges {
        Some(list) => Some(Box::new(VersionRanges { latest: list.latest, earlier: copy_of(&list.earlier) })),
        None => None,
    }
}

/// Whether `v` is in one of the ranges.
pub fn is_among(ranges: &Option<Box<VersionRanges>>, v: VersionNumber) -> (b: bool)
    ensures
        b == among(*ranges, v),
    decreases *ranges,
{
    match ranges {
        Some(list) => list.latest.contains(v) || is_among(&list.earlier, v),
        None => false,
    }
}

impl VersionRanges {
    /// Whether the value is known to hold at `v`.
    pub open spec fn contains_spec(&self, v: VersionNumber) -> bool {
        self.latest.contains_spec(v) || among(self.earlier, v)
    }

    /// The ranges, the earliest first.
    pub open spec fn ranges(self) -> Seq<VersionRange> {
        ranges_of(self.earlier).push(self.latest)
    }

    /// The ranges after `range` was noted.
    pub open spec fn then_spec(self, range: VersionRange) -> Self {
        VersionRanges { latest: range, earlier: Some(Box::new(self)) }
    }

    /// One range alone.
    pub fn only(range: VersionRange) -> (ranges: Self)
        ensures
            ranges == (VersionRanges { latest: range, earlier: None }),
    {
        VersionRanges { latest: range, earlier: None }
    }

    /// Notes one more range.
    #[verifier::when_used_as_spec(then_spec)]
    pub fn then(self, range: VersionRange) -> (ranges: Self)
        ensures
            ranges == self.then_spec(range),
    {
        VersionRanges { latest: range, earlier: Some(Box::new(self)) }
    }

    /// The range that was noted last.
    pub fn latest(&self) -> (range: VersionRange)
        ensures
            range == self.latest,
    {
        self.latest
    }

    /// How many ranges there are.
    pub fn count(&self) -> (n: usize)
        ensures
            n == self.ranges().len() || (n == usize::MAX && self.ranges().len() > usize::MAX),
    {
        let mut n: usize = 1;
        let mut rest = &self.earlier;
        while rest.is_some()
            invariant
                n == self.ranges().len() - ranges_of(*rest).len() || (n == usize::MAX
                    && self.ranges().len() - ranges_of(*rest).len() > usize::MAX),
            decreases *rest,
        {
            let list = rest.as_ref().unwrap();
            if n < usize::MAX {
                n = n + 1;
            }
            rest = &list.earlier;
        }
        n
    }

    #[verifier::when_used_as_spec(contains_spec)]
    pub fn contains(&self, v: VersionNumber) -> (b: bool)
        ensures
            b == self.contains_spec(v),
    {
        self.latest.contains(v) || is_among(&self.earlier, v)
    }

    /// A copy of the ranges.
    pub fn dupe(&self) -> (copy: Self)
        ensures
            copy == *self,
    {
        VersionRanges { latest: self.latest, earlier: copy_of(&self.earlier) }
    }
}

/// The smaller of two ends of ranges, where no end is the largest.
pub open spec fn min_end(a: Option<VersionNumber>, b: Option<VersionNumber>) -> Option<
    VersionNumber,
> {
    match (a, b) {
        (None, _) => b,
        (_, None) => a,
        (Some(x), Some(y)) => if x.0 <= y.0 {
            a
        } else {
            b
        },
    }
}

pub fn earlier_end(a: Option<VersionNumber>, b: Option<VersionNumber>) -> (m: Option<VersionNumber>)
    ensures
        m == min_end(a, b),
{
    match (a, b) {
        (None, _) => b,
        (_, None) => a,
        (Some(x), Some(y)) => if x.0 <= y.0 {
            a
        } else {
            b
        },
    }
}

} // verus!
