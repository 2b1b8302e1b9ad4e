//! Closed integer intervals and the five-way relation between two of them.

use vstd::prelude::*;

verus! {

/// Where an interval lies with respect to another one.
///
/// The two `Adjacent` relations hold of intervals that touch without
/// sharing an index: merging them leaves no gap.
#[derive(Debug, Clone, Copy, PartialEq, Eq, Structural)]
pub enum Relation {
    Before,
    AdjacentBefore,
    Overlapping,
    AdjacentAfter,
    After,
}

/// A closed interval `[start, end]` of indices.
#[derive(Debug, Clone, Copy, PartialEq, Eq, Structural)]
pub struct Range {
    pub start: usize,
    pub end: usize,
}

impl Range {
    /// `start <= end`: the interval holds at least one index.
    pub open spec fn wf(self) -> bool {
        self.start <= self.end
    }

    /// The indices of the interval.
    pub open spec fn view(self) -> Set<int> {
        Set::new(|i: int| self.start <= i <= self.end)
    }

    /// How many indices the interval holds.
    pub open spec fn spec_len(self) -> nat {
        (self.end - self.start + 1) as nat
    }

    /// The relation of `self` to `other`, decided on the boundaries
    /// `end + 1` and `start` of the two intervals.
    pub open spec fn spec_relation_to(self, other: Self) -> Relation {
        if self.end + 1 < other.start {
            Relation::Before
        } else if self.start > other.end + 1 {
            Relation::After
        } else if self.end + 1 == other.start {
            Relation::AdjacentBefore
        } else if self.start == other.end + 1 {
            Relation::AdjacentAfter
        } else {
            Relation::Overlapping
        }
    }

    /// The smallest interval that covers both.
    pub open spec fn spec_hull(self, other: Self) -> Self {
        Range {
            start: if self.start <= other.start { self.start } else { other.start },
            end: if self.end >= other.end { self.end } else { other.end },
        }
    }

    /// The largest interval that lies in both.
    pub open spec fn spec_common(self, other: Self) -> Self {
        Range {
            start: if self.start >= other.start { self.start } else { other.start },
            end: if self.end <= other.end { self.end } else { other.end },
        }
    }

    pub fn new(start: usize, end: usize) -> (r: Self)
        requires
            start <= end,
        ensures
            r == (Range { start, end }),
            r.wf(),
    {
        Self { start, end }
    }

    pub fn from_index(index: usize) -> (r: Self)
        ensures
            r == (Range { start: index, end: index }),
            r.wf(),
            r@ == set![index as int],
    {
        let r = Self { start: index, end: index };
        assert(r@ =~= set![index as int]);
        r
    }

    pub fn is_inside(&self, index: usize) -> (b: bool)
        ensures
            b == (self.start <= index && index <= self.end),
            b == self@.contains(index as int),
    {
        self.start <= index && index <= self.end
    }

    /// Decides the relation without computing `end + 1`, so that intervals
    /// that reach `usize::MAX` are compared like all others.
    pub fn relation_to(&self, other: Self) -> (r: Relation)
        ensures
            r == self.spec_relation_to(other),
    {
        if self.end < other.start && other.start - self.end > 1 {
            Relation::Before
        } else if self.start > other.end && self.start - other.end > 1 {
            Relation::After
        } else if self.end < other.start {
            Relation::AdjacentBefore
        } else if self.start > other.end {
            Relation::AdjacentAfter
        } else {
            Relation::Overlapping
        }
    }

    /// The union of two intervals, where it is an interval again.
    pub fn merge_with(&self, other: Self) -> (r: Option<Self>)
        requires
            self.wf(),
            other.wf(),
        ensures
            r is None <==> (self.spec_relation_to(other) == Relation::Before
                || self.spec_relation_to(other) == Relation::After),
            r is Some ==> r->0 == self.spec_hull(other) && r->0.wf() && r->0@ == self@.union(
                other@,
            ),
    {
        match self.relation_to(other) {
            Relation::Before => return None,
            Relation::AdjacentBefore => {},
            Relation::Overlapping => {},
            Relation::AdjacentAfter => {},
            Relation::After => return None,
        }
        let new_start = if self.start <= other.start { self.start } else { other.start };
        let new_end = if self.end >= other.end { self.end } else { other.end };
        let merged = Self::new(new_start, new_end);
        assert(merged@ =~= self@.union(other@));
        Some(merged)
    }

    /// The two intervals that are left when `index` is taken out of the
    /// interior of the interval.
    pub fn split_remove(&self, index: usize) -> (r: (Self, Self))
        requires
            self.start < index,
            index < self.end,
        ensures
            r.0 == (Range { start: self.start, end: (index - 1) as usize }),
            r.1 == (Range { start: (index + 1) as usize, end: self.end }),
            r.0.wf(),
            r.1.wf(),
            r.0@.union(r.1@) == self@.remove(index as int),
    {
        let left = Self::new(self.start, index - 1);
        let right = Self::new(index + 1, self.end);
        assert(left@.union(right@) =~= self@.remove(index as int));
        (left, right)
    }

    /// The indices that two intervals share, where there are any.
    pub fn intersect(&self, other: Self) -> (r: Option<Self>)
        requires
            self.wf(),
            other.wf(),
        ensures
            r is Some <==> self.spec_relation_to(other) == Relation::Overlapping,
            r is Some ==> r->0 == self.spec_common(other) && r->0.wf() && r->0@
                == self@.intersect(other@),
            r is None ==> self@.intersect(other@) == Set::<int>::empty(),
    {
        match self.relation_to(other) {
            Relation::Before => {
                assert(self@.intersect(other@) =~= Set::<int>::empty());
                None
            },
            Relation::AdjacentBefore => {
                assert(self@.intersect(other@) =~= Set::<int>::empty());
                None
            },
            Relation::Overlapping => {
                let new_start = if self.start >= other.start { self.start } else { other.start };
                let new_end = if self.end <= other.end { self.end } else { other.end };
                let common = Self::new(new_start, new_end);
                assert(common@ =~= self@.intersect(other@));
                Some(common)
            },
            Relation::AdjacentAfter => {
                assert(self@.intersect(other@) =~= Set::<int>::empty());
                None
            },
            Relation::After => {
                assert(self@.intersect(other@) =~= Set::<int>::empty());
                None
            },
        }
    }

    pub fn len(&self) -> (n: usize)
        requires
            self.wf(),
            self.end - self.start < usize::MAX,
        ensures
            n == self.spec_len(),
            n >= 1,
    {
        self.end - self.start + 1
    }

    /// The indices of the interval in ascending order, as a half-open range
    /// of `std`.
    pub fn iter(&self) -> (r: core::ops::Range<usize>)
        requires
            self.end < usize::MAX,
        ensures
            r.start == self.start,
            r.end == self.end + 1,
    {
        self.start..(self.end + 1)
    }
}

/// An interval holds as many indices as its length says.
pub proof fn lemma_range_view_len(r: Range)
    requires
        r.wf(),
    ensures
        r@.finite(),
        r@.len() == r.spec_len(),
{
    vstd::set_lib::lemma_int_range(r.start as int, r.end + 1);
    assert(r@ =~= vstd::set_lib::set_int_range(r.start as int, r.end + 1));
}

/// Seen from the other side, every relation is its mirror image.
pub proof fn lemma_relation_mirror(a: Range, b: Range)
    requires
        a.wf(),
        b.wf(),
    ensures
        a.spec_relation_to(b) == Relation::Before <==> b.spec_relation_to(a) == Relation::After,
        a.spec_relation_to(b) == Relation::AdjacentBefore <==> b.spec_relation_to(a)
            == Relation::AdjacentAfter,
        a.spec_relation_to(b) == Relation::Overlapping <==> b.spec_relation_to(a)
            == Relation::Overlapping,
{
}

} // verus!
