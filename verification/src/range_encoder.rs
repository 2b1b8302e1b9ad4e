//! A set of indices held as sorted, disjoint, non-adjacent intervals.

use crate::range::{Range, Relation};
use vstd::prelude::*;

verus! {

/// Every interval is non-empty, and between any two of them, in the order
/// of the sequence, lies at least one index that belongs to neither.
pub open spec fn ranges_wf(s: Seq<Range>) -> bool {
    &&& forall|k: int| 0 <= k < s.len() ==> (#[trigger] s[k]).start <= s[k].end
    &&& forall|i: int, j: int|
        0 <= i < j < s.len() ==> (#[trigger] s[i]).end + 1 < (#[trigger] s[j]).start
}

/// Some interval of `s` holds `i`.
pub open spec fn ranges_contain(s: Seq<Range>, i: int) -> bool {
    exists|k: int| 0 <= k < s.len() && (#[trigger] s[k]).start <= i && i <= s[k].end
}

/// The indices that the intervals of `s` hold.
pub open spec fn ranges_view(s: Seq<Range>) -> Set<int> {
    Set::new(|i: int| ranges_contain(s, i))
}

/// The lengths of the intervals of `s`, added up.
pub open spec fn ranges_count(s: Seq<Range>) -> nat
    decreases s.len(),
{
    if s.len() == 0 {
        0
    } else {
        ranges_count(s.drop_last()) + s.last().spec_len()
    }
}

/// A set of indices, stored as the list of its maximal runs.
#[derive(Debug, Clone, PartialEq, Eq)]
pub struct RangeEncoder {
    activ_ranges: Vec<Range>,
}

impl RangeEncoder {
    /// The stored intervals, in ascending order.
    pub closed spec fn ranges(&self) -> Seq<Range> {
        self.activ_ranges@
    }

    /// The intervals are sorted, and no two of them overlap or touch.
    pub open spec fn wf(&self) -> bool {
        ranges_wf(self.ranges())
    }

    /// The indices that are active.
    pub open spec fn view(&self) -> Set<int> {
        ranges_view(self.ranges())
    }

    /// The sum of the lengths of the stored intervals.
    pub open spec fn count(&self) -> nat {
        ranges_count(self.ranges())
    }

    pub fn new() -> (r: Self)
        ensures
            r.wf(),
            r.ranges() == Seq::<Range>::empty(),
            r@ == Set::<int>::empty(),
    {
        let r = Self { activ_ranges: Vec::new() };
        assert(r@ =~= Set::<int>::empty());
        r
    }

    pub fn is_empty(&self) -> (b: bool)
        requires
            self.wf(),
        ensures
            b == (self.ranges().len() == 0),
            b == (self@ == Set::<int>::empty()),
    {
        proof {
            if self.ranges().len() > 0 {
                let first = self.ranges()[0];
                assert(ranges_contain(self.ranges(), first.start as int));
                assert(self@.contains(first.start as int));
            } else {
                assert(self@ =~= Set::<int>::empty());
            }
        }
        self.activ_ranges.is_empty()
    }

    /// The stored intervals.
    pub fn get_activ_ranges(&self) -> (r: &Vec<Range>)
        ensures
            r@ == self.ranges(),
    {
        &self.activ_ranges
    }

    /// Looks for the interval that holds `index` or touches it.
    ///
    /// Returns whether `index` is active, and a position: that of the
    /// interval that holds `index`; else that of an interval that touches
    /// it; else the position at which an interval for `index` is to be
    /// inserted.
    fn binary_search_for_index(&self, index: usize) -> (r: (bool, usize))
        requires
            self.wf(),
        ensures
            r.0 == self@.contains(index as int),
            r.1 <= self.ranges().len(),
            r.0 ==> r.1 < self.ranges().len() && self.ranges()[r.1 as int].start <= index
                <= self.ranges()[r.1 as int].end,
            !r.0 ==> {
                ||| (r.1 < self.ranges().len() && self.ranges()[r.1 as int].end + 1 == index)
                ||| (r.1 < self.ranges().len() && index + 1 == self.ranges()[r.1 as int].start)
                ||| ((r.1 == 0 || self.ranges()[r.1 - 1].end + 1 < index) && (r.1
                    == self.ranges().len() || index + 1 < self.ranges()[r.1 as int].start))
            },
    {
        let mut size: usize = self.activ_ranges.len();
        let mut right: usize = size;
        let mut left: usize = 0;
        let range_of_index = Range::from_index(index);
        while left < right
            invariant
                self.wf(),
                left <= right <= self.ranges().len(),
                size == right - left,
                range_of_index == (Range { start: index, end: index }),
                forall|k: int| 0 <= k < left ==> (#[trigger] self.ranges()[k]).end + 1 < index,
                forall|k: int|
                    right <= k < self.ranges().len() ==> index + 1 < (
                    #[trigger] self.ranges()[k]).start,
            decreases right - left,
        {
            let mid: usize = left + size / 2;
            match self.activ_ranges[mid].relation_to(range_of_index) {
                Relation::Before => left = mid + 1,
                Relation::After => right = mid,
                Relation::Overlapping => {
                    assert(ranges_contain(self.ranges(), index as int));
                    return (true, mid);
                },
                Relation::AdjacentBefore => {
                    assert(!ranges_contain(self.ranges(), index as int));
                    return (false, mid);
                },
                Relation::AdjacentAfter => {
                    assert(!ranges_contain(self.ranges(), index as int));
                    return (false, mid);
                },
            }
            size = right - left;
        }
        assert(!ranges_contain(self.ranges(), index as int));
        (false, left)
    }

    pub fn is_activ(&self, index: usize) -> (b: bool)
        requires
            self.wf(),
        ensures
            b == self@.contains(index as int),
    {
        self.binary_search_for_index(index).0
    }

    /// Makes `index` active.
    ///
    /// An index that touches a stored interval extends it; one that closes
    /// the gap between two stored intervals joins them into one.
    pub fn insert(&mut self, index: usize)
        requires
            old(self).wf(),
        ensures
            final(self).wf(),
            final(self)@ == old(self)@.insert(index as int),
    {
        let (is_activ, found) = self.binary_search_for_index(index);
        if is_activ {
            assert(self@ =~= self@.insert(index as int));
            return ;
        }
        let range = Range::from_index(index);
        let len: usize = self.activ_ranges.len();
        // The intervals before `insert_index` end before `index`, the others
        // start after it.
        let insert_index: usize = if found < len && self.activ_ranges[found].end < index {
            found + 1
        } else {
            found
        };
        let is_adjacent_before = insert_index > 0 && self.activ_ranges[insert_index
            - 1].relation_to(range) == Relation::AdjacentBefore;
        let is_adjacent_after = insert_index < len
            && self.activ_ranges[insert_index].relation_to(range) == Relation::AdjacentAfter;
        let ghost before = self.ranges();
        match (is_adjacent_before, is_adjacent_after) {
            (true, true) => {
                let next_range = self.activ_ranges.remove(insert_index);
                let new_range = self.activ_ranges[insert_index - 1].merge_with(
                    range,
                ).unwrap().merge_with(next_range).unwrap();
                self.activ_ranges[insert_index - 1] = new_range;
                proof {
                    lemma_join(before, insert_index as int, index as int);
                }
            },
            (true, false) => {
                let new_range = self.activ_ranges[insert_index - 1].merge_with(range).unwrap();
                self.activ_ranges[insert_index - 1] = new_range;
                proof {
                    lemma_extend_end(before, insert_index as int, index as int);
                }
            },
            (false, true) => {
                let new_range = range.merge_with(self.activ_ranges[insert_index]).unwrap();
                self.activ_ranges[insert_index] = new_range;
                proof {
                    lemma_extend_start(before, insert_index as int, index as int);
                }
            },
            (false, false) => {
                self.activ_ranges.insert(insert_index, range);
                proof {
                    lemma_insert_single(before, insert_index as int, index as int);
                }
            },
        }
        assert(self@ =~= old(self)@.insert(index as int));
    }

    /// The number of active indices.
    pub fn activ_count(&self) -> (n: usize)
        requires
            self.wf(),
            self.count() <= usize::MAX,
        ensures
            n == self.count(),
            n == self@.len(),
    {
        let mut n: usize = 0;
        let mut k: usize = 0;
        while k < self.activ_ranges.len()
            invariant
                self.wf(),
                self.count() <= usize::MAX,
                k <= self.ranges().len(),
                n == ranges_count(self.ranges().take(k as int)),
            decreases self.ranges().len() - k,
        {
            proof {
                lemma_count_prefix(self.ranges(), k as int + 1);
                assert(self.ranges().take(k as int + 1).drop_last() =~= self.ranges().take(
                    k as int,
                ));
            }
            n = n + self.activ_ranges[k].len();
            k = k + 1;
        }
        proof {
            assert(self.ranges().take(k as int) =~= self.ranges());
            lemma_ranges_view_len(self.ranges());
        }
        n
    }

    /// The indices that are active in both sets.
    pub fn intersect(&self, other: &Self) -> (result: Self)
        requires
            self.wf(),
            other.wf(),
        ensures
            result.wf(),
            result@ == self@.intersect(other@),
    {
        let mut result = RangeEncoder::new();
        let mut i: usize = 0;
        let mut j: usize = 0;
        while i < self.activ_ranges.len() && j < other.activ_ranges.len()
            invariant
                self.wf(),
                other.wf(),
                result.wf(),
                i <= self.ranges().len(),
                j <= other.ranges().len(),
                forall|x: int|
                    ranges_contain(result.ranges(), x) ==> ranges_contain(self.ranges(), x)
                        && ranges_contain(other.ranges(), x),
                forall|x: int|
                    ranges_contain(self.ranges(), x) && ranges_contain(other.ranges(), x)
                        ==> ranges_contain(result.ranges(), x) || (ranges_contain_from(
                        self.ranges(),
                        i as int,
                        x,
                    ) && ranges_contain_from(other.ranges(), j as int, x)),
                result.ranges().len() > 0 && i < self.ranges().len() && j < other.ranges().len()
                    ==> result.ranges().last().end + 1 < self.ranges()[i as int].start
                    || result.ranges().last().end + 1 < other.ranges()[j as int].start,
            decreases (self.ranges().len() - i) + (other.ranges().len() - j),
        {
            let this = self.activ_ranges[i];
            let that = other.activ_ranges[j];
            let ghost a = self.ranges();
            let ghost b = other.ranges();
            let ghost done = result.ranges();
            match this.relation_to(that) {
                Relation::Before | Relation::AdjacentBefore => {
                    proof {
                        lemma_skip_interval(a, b, i as int, j as int);
                        assert forall|x: int|
                            ranges_contain(a, x) && ranges_contain(b, x) implies ranges_contain(
                            done,
                            x,
                        ) || (ranges_contain_from(a, i + 1, x) && ranges_contain_from(
                            b,
                            j as int,
                            x,
                        )) by {
                            if !ranges_contain(done, x) {
                                assert(ranges_contain_from(a, i as int, x));
                                assert(ranges_contain_from(b, j as int, x));
                            }
                        }
                    }
                    i = i + 1;
                },
                Relation::Overlapping => {
                    let common = this.intersect(that).unwrap();
                    result.activ_ranges.push(common);
                    let next_overlaps = i + 1 < self.activ_ranges.len() && self.activ_ranges[i
                        + 1].relation_to(that) == Relation::Overlapping;
                    proof {
                        assert(result.ranges() == done.push(common));
                        lemma_push_common(done, common);
                        assert forall|x: int| ranges_contain(result.ranges(), x) implies ranges_contain(
                            a,
                            x,
                        ) && ranges_contain(b, x) by {
                            if !ranges_contain(done, x) {
                                assert(a[i as int].start <= x <= a[i as int].end);
                                assert(b[j as int].start <= x <= b[j as int].end);
                            }
                        }
                        if next_overlaps {
                            lemma_skip_overlapped(a, b, i as int, j as int);
                            assert forall|x: int|
                                ranges_contain(a, x) && ranges_contain(b, x) implies ranges_contain(
                                result.ranges(),
                                x,
                            ) || (ranges_contain_from(a, i + 1, x) && ranges_contain_from(
                                b,
                                j as int,
                                x,
                            )) by {
                                if !ranges_contain(done, x) {
                                    assert(ranges_contain_from(a, i as int, x));
                                    assert(ranges_contain_from(b, j as int, x));
                                    if !ranges_contain_from(a, i + 1, x) {
                                        assert(common.start <= x <= common.end);
                                    }
                                }
                            }
                        } else {
                            lemma_skip_overlapped(b, a, j as int, i as int);
                            assert forall|x: int|
                                ranges_contain(a, x) && ranges_contain(b, x) implies ranges_contain(
                                result.ranges(),
                                x,
                            ) || (ranges_contain_from(a, i as int, x) && ranges_contain_from(
                                b,
                                j + 1,
                                x,
                            )) by {
                                if !ranges_contain(done, x) {
                                    assert(ranges_contain_from(a, i as int, x));
                                    assert(ranges_contain_from(b, j as int, x));
                                    if !ranges_contain_from(b, j + 1, x) {
                                        assert(common.start <= x <= common.end);
                                    }
                                }
                            }
                        }
                    }
                    if next_overlaps {
                        i = i + 1;
                    } else {
                        j = j + 1;
                    }
                },
                Relation::AdjacentAfter | Relation::After => {
                    proof {
                        lemma_skip_interval(b, a, j as int, i as int);
                        assert forall|x: int|
                            ranges_contain(a, x) && ranges_contain(b, x) implies ranges_contain(
                            done,
                            x,
                        ) || (ranges_contain_from(a, i as int, x) && ranges_contain_from(
                            b,
                            j + 1,
                            x,
                        )) by {
                            if !ranges_contain(done, x) {
                                assert(ranges_contain_from(a, i as int, x));
                                assert(ranges_contain_from(b, j as int, x));
                            }
                        }
                    }
                    j = j + 1;
                },
            }
        }
        assert(result@ =~= self@.intersect(other@));
        result
    }

    /// The active indices in ascending order.
    pub fn iter(&self) -> (r: Vec<usize>)
        requires
            self.wf(),
        ensures
            r@.len() == self.count(),
            forall|p: int, q: int| 0 <= p < q < r@.len() ==> r@[p] < r@[q],
            forall|x: int| self@.contains(x) <==> exists|p: int| 0 <= p < r@.len() && r@[p] == x,
    {
        let mut r: Vec<usize> = Vec::new();
        let mut k: usize = 0;
        while k < self.activ_ranges.len()
            invariant
                self.wf(),
                k <= self.ranges().len(),
                r@.len() == ranges_count(self.ranges().take(k as int)),
                forall|p: int, q: int| 0 <= p < q < r@.len() ==> r@[p] < r@[q],
                forall|p: int|
                    0 <= p < r@.len() ==> ranges_contain(self.ranges().take(k as int), r@[p] as int),
                forall|x: int|
                    ranges_contain(self.ranges().take(k as int), x) ==> exists|p: int|
                        0 <= p < r@.len() && r@[p] == x,
            decreases self.ranges().len() - k,
        {
            let range = self.activ_ranges[k];
            let ghost seen = self.ranges().take(k as int);
            let ghost next = self.ranges().take(k as int + 1);
            let ghost before = r@;
            let mut index: usize = range.start;
            r.push(index);
            proof {
                assert(next.drop_last() =~= seen);
                assert(next.last() == range);
                assert forall|p: int| 0 <= p < before.len() implies before[p] < range.start by {
                    let w = choose|w: int|
                        0 <= w < seen.len() && (#[trigger] seen[w]).start <= before[p] && before[p]
                            <= seen[w].end;
                    assert(seen[w] == self.ranges()[w]);
                }
            }
            while index < range.end
                invariant
                    range.start <= index <= range.end,
                    r@.len() == before.len() + (index - range.start) + 1,
                    forall|p: int| 0 <= p < before.len() ==> r@[p] == before[p],
                    forall|p: int|
                        before.len() <= p < r@.len() ==> r@[p] == range.start + (p - before.len()),
                decreases range.end - index,
            {
                index = index + 1;
                r.push(index);
            }
            proof {
                assert forall|p: int, q: int| 0 <= p < q < r@.len() implies r@[p] < r@[q] by {
                    if p < before.len() {
                        assert(r@[p] == before[p]);
                        assert(before[p] < range.start);
                        if q < before.len() {
                            assert(r@[q] == before[q]);
                            assert(before[p] < before[q]);
                        }
                    }
                }
                assert forall|p: int| 0 <= p < r@.len() implies ranges_contain(
                    next,
                    r@[p] as int,
                ) by {
                    if p < before.len() {
                        let w = choose|w: int|
                            0 <= w < seen.len() && (#[trigger] seen[w]).start <= before[p]
                                && before[p] <= seen[w].end;
                        assert(next[w] == seen[w]);
                    } else {
                        assert(next[k as int] == range);
                    }
                }
                assert forall|x: int| ranges_contain(next, x) implies exists|p: int|
                    0 <= p < r@.len() && r@[p] == x by {
                    let w = choose|w: int|
                        0 <= w < next.len() && (#[trigger] next[w]).start <= x && x <= next[w].end;
                    if w < k {
                        assert(seen[w] == next[w]);
                        assert(ranges_contain(seen, x));
                        let p = choose|p: int| 0 <= p < before.len() && before[p] == x;
                        assert(r@[p] == x);
                    } else {
                        let p = before.len() + (x - range.start);
                        assert(r@[p] == x);
                    }
                }
            }
            k = k + 1;
        }
        proof {
            assert(self.ranges().take(k as int) =~= self.ranges());
        }
        r
    }

    /// Makes `index` active: `insert` under the name that a grid uses for a
    /// row of one of its columns.
    pub fn insert_index(&mut self, index: usize)
        requires
            old(self).wf(),
        ensures
            final(self).wf(),
            final(self)@ == old(self)@.insert(index as int),
    {
        self.insert(index)
    }
}

/// Some interval of `s` at position `from` or later holds `i`.
pub open spec fn ranges_contain_from(s: Seq<Range>, from: int, i: int) -> bool {
    exists|k: int| from <= k < s.len() && 0 <= k && (#[trigger] s[k]).start <= i && i <= s[k].end
}

/// The count of a prefix is the count of the shorter prefix and the length
/// of the interval that follows it, and no more than the count of the
/// whole.
proof fn lemma_count_prefix(s: Seq<Range>, k: int)
    requires
        0 < k <= s.len(),
    ensures
        ranges_count(s.take(k)) == ranges_count(s.take(k - 1)) + s[k - 1].spec_len(),
        ranges_count(s.take(k)) <= ranges_count(s),
    decreases s.len() - k,
{
    assert(s.take(k).drop_last() =~= s.take(k - 1));
    assert(s.take(k).last() == s[k - 1]);
    if k < s.len() {
        lemma_count_prefix(s, k + 1);
    } else {
        assert(s.take(k) =~= s);
    }
}

/// A well-formed list holds as many indices as the lengths of its intervals
/// add up to.
pub proof fn lemma_ranges_view_len(s: Seq<Range>)
    requires
        ranges_wf(s),
    ensures
        ranges_view(s).finite(),
        ranges_view(s).len() == ranges_count(s),
    decreases s.len(),
{
    if s.len() == 0 {
        assert(ranges_view(s) =~= Set::<int>::empty());
    } else {
        let init = s.drop_last();
        let last = s.last();
        lemma_ranges_view_len(init);
        crate::range::lemma_range_view_len(last);
        assert forall|x: int| ranges_contain(s, x) <==> (ranges_contain(init, x) || last@.contains(
            x,
        )) by {
            if ranges_contain(s, x) {
                let k = choose|k: int|
                    0 <= k < s.len() && (#[trigger] s[k]).start <= x && x <= s[k].end;
                if k < s.len() - 1 {
                    assert(init[k] == s[k]);
                }
            }
            if ranges_contain(init, x) {
                let k = choose|k: int|
                    0 <= k < init.len() && (#[trigger] init[k]).start <= x && x <= init[k].end;
                assert(s[k] == init[k]);
            }
            if last@.contains(x) {
                assert(s[s.len() - 1] == last);
            }
        }
        assert(ranges_view(s) =~= ranges_view(init).union(last@));
        assert(ranges_view(init).disjoint(last@)) by {
            assert forall|x: int| !(ranges_view(init).contains(x) && last@.contains(x)) by {
                if ranges_contain(init, x) {
                    let k = choose|k: int|
                        0 <= k < init.len() && (#[trigger] init[k]).start <= x && x <= init[k].end;
                    assert(s[k] == init[k]);
                    assert(s[k].end + 1 < s[s.len() - 1].start);
                }
            }
        }
        vstd::set_lib::lemma_set_disjoint_lens(ranges_view(init), last@);
    }
}

/// The interval `a[i]` ends before `b[j]` starts: it shares nothing with
/// the intervals of `b` from `j` on.
proof fn lemma_skip_interval(a: Seq<Range>, b: Seq<Range>, i: int, j: int)
    requires
        ranges_wf(a),
        ranges_wf(b),
        0 <= i < a.len(),
        0 <= j < b.len(),
        a[i].end < b[j].start,
    ensures
        forall|x: int|
            ranges_contain_from(a, i, x) && ranges_contain_from(b, j, x) ==> ranges_contain_from(
                a,
                i + 1,
                x,
            ),
{
    assert forall|x: int|
        ranges_contain_from(a, i, x) && ranges_contain_from(b, j, x) implies ranges_contain_from(
        a,
        i + 1,
        x,
    ) by {
        let k = choose|k: int| i <= k < a.len() && 0 <= k && (#[trigger] a[k]).start <= x && x <= a[k].end;
        let m = choose|m: int| j <= m < b.len() && 0 <= m && (#[trigger] b[m]).start <= x && x <= b[m].end;
        if k == i {
            if m > j {
                assert(b[j].end + 1 < b[m].start);
            }
            assert(false);
        }
    }
}

/// The interval `a[i]` overlaps `b[j]` and ends before the interval after
/// `b[j]` starts, if there is one: what `a[i]` shares with `b` from `j` on,
/// it shares with `b[j]`.
proof fn lemma_skip_overlapped(a: Seq<Range>, b: Seq<Range>, i: int, j: int)
    requires
        ranges_wf(a),
        ranges_wf(b),
        0 <= i < a.len(),
        0 <= j < b.len(),
        a[i].spec_relation_to(b[j]) == Relation::Overlapping,
        j + 1 < b.len() ==> a[i].end < b[j + 1].start,
    ensures
        forall|x: int|
            ranges_contain_from(a, i, x) && ranges_contain_from(b, j, x) ==> (a[i].start <= x
                <= a[i].end && b[j].start <= x <= b[j].end) || ranges_contain_from(a, i + 1, x),
{
    assert forall|x: int|
        ranges_contain_from(a, i, x) && ranges_contain_from(b, j, x) implies (a[i].start <= x
        <= a[i].end && b[j].start <= x <= b[j].end) || ranges_contain_from(a, i + 1, x) by {
        let k = choose|k: int| i <= k < a.len() && 0 <= k && (#[trigger] a[k]).start <= x && x <= a[k].end;
        let m = choose|m: int| j <= m < b.len() && 0 <= m && (#[trigger] b[m]).start <= x && x <= b[m].end;
        if k == i && m > j {
            if m > j + 1 {
                assert(b[j + 1].end + 1 < b[m].start);
            }
            assert(false);
        }
    }
}

/// An interval that starts after a gap behind the last one may follow it.
proof fn lemma_push_common(s: Seq<Range>, r: Range)
    requires
        ranges_wf(s),
        r.wf(),
        s.len() > 0 ==> s.last().end + 1 < r.start,
    ensures
        ranges_wf(s.push(r)),
        forall|x: int|
            ranges_contain(s.push(r), x) <==> (ranges_contain(s, x) || r.start <= x <= r.end),
{
    let t = s.push(r);
    assert forall|i: int, j: int| 0 <= i < j < t.len() implies (#[trigger] t[i]).end + 1 < (
    #[trigger] t[j]).start by {
        if j < s.len() {
            assert(t[i] == s[i] && t[j] == s[j]);
        } else if i < s.len() - 1 {
            assert(s[i].end + 1 < s[s.len() - 1].start);
        }
    }
    assert forall|x: int|
        ranges_contain(t, x) <==> (ranges_contain(s, x) || r.start <= x <= r.end) by {
        if ranges_contain(t, x) {
            let k = choose|k: int| 0 <= k < t.len() && (#[trigger] t[k]).start <= x && x <= t[k].end;
            if k < s.len() {
                assert(s[k] == t[k]);
            }
        }
        if ranges_contain(s, x) {
            let k = choose|k: int| 0 <= k < s.len() && (#[trigger] s[k]).start <= x && x <= s[k].end;
            assert(t[k] == s[k]);
        }
        if r.start <= x <= r.end {
            assert(t[s.len() as int] == r);
        }
    }
}

/// `p` parts `s` around `index`: the intervals before `p` end before
/// `index`, those from `p` on start after it.
pub open spec fn parts_at(s: Seq<Range>, p: int, index: int) -> bool {
    &&& 0 <= p <= s.len()
    &&& forall|k: int| 0 <= k < p ==> (#[trigger] s[k]).end < index
    &&& forall|k: int| p <= k < s.len() ==> index < (#[trigger] s[k]).start
}

/// A new interval `[index, index]` at `p`, where `index` touches neither
/// neighbour.
proof fn lemma_insert_single(s: Seq<Range>, p: int, index: int)
    requires
        ranges_wf(s),
        parts_at(s, p, index),
        0 <= index <= usize::MAX,
        p > 0 ==> s[p - 1].end + 1 < index,
        p < s.len() ==> index + 1 < s[p].start,
    ensures
        ranges_wf(s.insert(p, Range { start: index as usize, end: index as usize })),
        forall|i: int|
            ranges_contain(s.insert(p, Range { start: index as usize, end: index as usize }), i)
                <==> (ranges_contain(s, i) || i == index),
{
    let r = Range { start: index as usize, end: index as usize };
    let t = s.insert(p, r);
    assert forall|i: int, j: int| 0 <= i < j < t.len() implies (#[trigger] t[i]).end + 1 < (
    #[trigger] t[j]).start by {
        if j < p {
        } else if j == p {
            assert(s[i].end <= s[p - 1].end);
        } else if i == p {
            assert(s[p].start <= s[j - 1].start);
        } else if i < p {
            assert(t[i] == s[i] && t[j] == s[j - 1]);
        } else {
            assert(t[i] == s[i - 1] && t[j] == s[j - 1]);
        }
    }
    assert forall|i: int| ranges_contain(t, i) <==> (ranges_contain(s, i) || i == index) by {
        if ranges_contain(t, i) {
            let k = choose|k: int| 0 <= k < t.len() && (#[trigger] t[k]).start <= i && i <= t[k].end;
            if k < p {
                assert(s[k] == t[k]);
            } else if k > p {
                assert(s[k - 1] == t[k]);
            }
        }
        if ranges_contain(s, i) {
            let k = choose|k: int| 0 <= k < s.len() && (#[trigger] s[k]).start <= i && i <= s[k].end;
            if k < p {
                assert(t[k] == s[k]);
            } else {
                assert(t[k + 1] == s[k]);
            }
        }
        if i == index {
            assert(t[p] == r);
        }
    }
}

/// The interval before `p` ends right before `index` and takes it in.
proof fn lemma_extend_end(s: Seq<Range>, p: int, index: int)
    requires
        ranges_wf(s),
        parts_at(s, p, index),
        0 <= index <= usize::MAX,
        p > 0,
        s[p - 1].end + 1 == index,
        p < s.len() ==> index + 1 < s[p].start,
    ensures
        ranges_wf(s.update(p - 1, Range { start: s[p - 1].start, end: index as usize })),
        forall|i: int|
            ranges_contain(s.update(p - 1, Range { start: s[p - 1].start, end: index as usize }), i)
                <==> (ranges_contain(s, i) || i == index),
{
    let r = Range { start: s[p - 1].start, end: index as usize };
    let t = s.update(p - 1, r);
    assert forall|i: int, j: int| 0 <= i < j < t.len() implies (#[trigger] t[i]).end + 1 < (
    #[trigger] t[j]).start by {
        if i == p - 1 {
            assert(s[p].start <= s[j].start);
        } else {
            assert(s[i].end + 1 < s[j].start);
        }
    }
    assert forall|i: int| ranges_contain(t, i) <==> (ranges_contain(s, i) || i == index) by {
        if ranges_contain(t, i) {
            let k = choose|k: int| 0 <= k < t.len() && (#[trigger] t[k]).start <= i && i <= t[k].end;
            if k != p - 1 {
                assert(s[k] == t[k]);
            } else if i != index {
                assert(s[p - 1].start <= i <= s[p - 1].end);
            }
        }
        if ranges_contain(s, i) {
            let k = choose|k: int| 0 <= k < s.len() && (#[trigger] s[k]).start <= i && i <= s[k].end;
            assert(t[k].start <= i <= t[k].end);
        }
        if i == index {
            assert(t[p - 1] == r);
        }
    }
}

/// The interval at `p` starts right after `index` and takes it in.
proof fn lemma_extend_start(s: Seq<Range>, p: int, index: int)
    requires
        ranges_wf(s),
        parts_at(s, p, index),
        0 <= index <= usize::MAX,
        p < s.len(),
        index + 1 == s[p].start,
        p > 0 ==> s[p - 1].end + 1 < index,
    ensures
        ranges_wf(s.update(p, Range { start: index as usize, end: s[p].end })),
        forall|i: int|
            ranges_contain(s.update(p, Range { start: index as usize, end: s[p].end }), i) <==> (
            ranges_contain(s, i) || i == index),
{
    let r = Range { start: index as usize, end: s[p].end };
    let t = s.update(p, r);
    assert forall|i: int, j: int| 0 <= i < j < t.len() implies (#[trigger] t[i]).end + 1 < (
    #[trigger] t[j]).start by {
        if j == p {
            assert(s[i].end <= s[p - 1].end);
        } else {
            assert(s[i].end + 1 < s[j].start);
        }
    }
    assert forall|i: int| ranges_contain(t, i) <==> (ranges_contain(s, i) || i == index) by {
        if ranges_contain(t, i) {
            let k = choose|k: int| 0 <= k < t.len() && (#[trigger] t[k]).start <= i && i <= t[k].end;
            if k != p {
                assert(s[k] == t[k]);
            } else if i != index {
                assert(s[p].start <= i <= s[p].end);
            }
        }
        if ranges_contain(s, i) {
            let k = choose|k: int| 0 <= k < s.len() && (#[trigger] s[k]).start <= i && i <= s[k].end;
            assert(t[k].start <= i <= t[k].end);
        }
        if i == index {
            assert(t[p] == r);
        }
    }
}

/// `index` is all that parts the intervals before and at `p`: they become
/// one.
proof fn lemma_join(s: Seq<Range>, p: int, index: int)
    requires
        ranges_wf(s),
        0 < p < s.len(),
        s[p - 1].end + 1 == index,
        index + 1 == s[p].start,
    ensures
        ranges_wf(s.remove(p).update(p - 1, Range { start: s[p - 1].start, end: s[p].end })),
        forall|i: int|
            ranges_contain(
                s.remove(p).update(p - 1, Range { start: s[p - 1].start, end: s[p].end }),
                i,
            ) <==> (ranges_contain(s, i) || i == index),
{
    let r = Range { start: s[p - 1].start, end: s[p].end };
    let t = s.remove(p).update(p - 1, r);
    assert forall|k: int| 0 <= k < t.len() implies (#[trigger] t[k]).start <= t[k].end by {
        if k < p - 1 {
            assert(t[k] == s[k]);
        } else if k == p - 1 {
            assert(s[p - 1].start <= s[p - 1].end && s[p].start <= s[p].end);
        } else {
            assert(t[k] == s[k + 1]);
        }
    }
    assert forall|i: int, j: int| 0 <= i < j < t.len() implies (#[trigger] t[i]).end + 1 < (
    #[trigger] t[j]).start by {
        if j < p - 1 {
            assert(t[i] == s[i] && t[j] == s[j]);
        } else if j == p - 1 {
            assert(t[i] == s[i]);
            assert(s[i].end + 1 < s[p - 1].start);
        } else if i == p - 1 {
            assert(t[j] == s[j + 1]);
            assert(s[p].end + 1 < s[j + 1].start);
        } else if i < p - 1 {
            assert(t[i] == s[i] && t[j] == s[j + 1]);
        } else {
            assert(t[i] == s[i + 1] && t[j] == s[j + 1]);
        }
    }
    assert forall|i: int| ranges_contain(t, i) <==> (ranges_contain(s, i) || i == index) by {
        if ranges_contain(t, i) {
            let k = choose|k: int| 0 <= k < t.len() && (#[trigger] t[k]).start <= i && i <= t[k].end;
            if k < p - 1 {
                assert(s[k] == t[k]);
            } else if k > p - 1 {
                assert(s[k + 1] == t[k]);
            } else if i < index {
                assert(s[p - 1].start <= i <= s[p - 1].end);
            } else if i > index {
                assert(s[p].start <= i <= s[p].end);
            }
        }
        if ranges_contain(s, i) {
            let k = choose|k: int| 0 <= k < s.len() && (#[trigger] s[k]).start <= i && i <= s[k].end;
            if k < p - 1 {
                assert(t[k] == s[k]);
            } else if k > p {
                assert(t[k - 1] == s[k]);
            } else {
                assert(t[p - 1].start <= i <= t[p - 1].end);
            }
        }
        if i == index {
            assert(t[p - 1].start <= i <= t[p - 1].end);
        }
    }
}

/// The view of a list without its last interval: what lies below the start
/// of that interval.
proof fn lemma_view_drop_last(s: Seq<Range>)
    requires
        ranges_wf(s),
        s.len() > 0,
    ensures
        ranges_wf(s.drop_last()),
        forall|x: int|
            ranges_contain(s.drop_last(), x) <==> (ranges_contain(s, x) && x < s.last().start),
{
    let init = s.drop_last();
    assert forall|x: int|
        ranges_contain(init, x) <==> (ranges_contain(s, x) && x < s.last().start) by {
        if ranges_contain(init, x) {
            let k = choose|k: int|
                0 <= k < init.len() && (#[trigger] init[k]).start <= x && x <= init[k].end;
            assert(s[k] == init[k]);
            assert(s[k].end + 1 < s[s.len() - 1].start);
        }
        if ranges_contain(s, x) && x < s.last().start {
            let k = choose|k: int| 0 <= k < s.len() && (#[trigger] s[k]).start <= x && x <= s[k].end;
            assert(init[k] == s[k]);
        }
    }
}

/// A set of indices has one list of maximal runs: two well-formed lists
/// that hold the same indices are the same list.
pub proof fn lemma_ranges_unique(s: Seq<Range>, t: Seq<Range>)
    requires
        ranges_wf(s),
        ranges_wf(t),
        ranges_view(s) == ranges_view(t),
    ensures
        s == t,
    decreases s.len(),
{
    lemma_same_view(s, t);
    if s.len() == 0 {
        if t.len() > 0 {
            assert(ranges_contain(t, t[0].start as int));
        }
        assert(s =~= t);
    } else if t.len() == 0 {
        assert(ranges_contain(s, s[0].start as int));
    } else {
        let a = s.last();
        let b = t.last();
        lemma_last_is_greatest(s, t);
        lemma_last_is_greatest(t, s);
        assert(a.end == b.end);
        lemma_last_start(s, t);
        lemma_last_start(t, s);
        assert(a == b);
        lemma_view_drop_last(s);
        lemma_view_drop_last(t);
        assert forall|x: int|
            ranges_view(s.drop_last()).contains(x) == ranges_view(t.drop_last()).contains(x) by {
            assert(ranges_view(s.drop_last()).contains(x) == ranges_contain(s.drop_last(), x));
            assert(ranges_view(t.drop_last()).contains(x) == ranges_contain(t.drop_last(), x));
            assert(ranges_contain(s, x) == ranges_contain(t, x));
        }
        assert(ranges_view(s.drop_last()) =~= ranges_view(t.drop_last()));
        lemma_ranges_unique(s.drop_last(), t.drop_last());
        assert(s =~= s.drop_last().push(a));
        assert(t =~= t.drop_last().push(b));
    }
}

/// Lists with the same view hold the same indices.
proof fn lemma_same_view(s: Seq<Range>, t: Seq<Range>)
    requires
        ranges_view(s) == ranges_view(t),
    ensures
        forall|x: int| ranges_contain(s, x) == ranges_contain(t, x),
{
    assert forall|x: int| ranges_contain(s, x) == ranges_contain(t, x) by {
        assert(ranges_view(s).contains(x) == ranges_contain(s, x));
        assert(ranges_view(t).contains(x) == ranges_contain(t, x));
    }
}

/// No index of `t` lies above the end of the last interval of `s`, where
/// `s` holds every index of `t`.
proof fn lemma_last_is_greatest(s: Seq<Range>, t: Seq<Range>)
    requires
        ranges_wf(s),
        ranges_wf(t),
        s.len() > 0,
        t.len() > 0,
        forall|x: int| ranges_contain(s, x) == ranges_contain(t, x),
    ensures
        t.last().end <= s.last().end,
{
    let x = t.last().end as int;
    assert(ranges_contain(t, x)) by {
        assert(t[t.len() - 1].start <= x <= t[t.len() - 1].end);
    }
    let k = choose|k: int| 0 <= k < s.len() && (#[trigger] s[k]).start <= x && x <= s[k].end;
    if k < s.len() - 1 {
        assert(s[k].end + 1 < s[s.len() - 1].start);
    }
}

/// Two lists that hold the same indices and end at the same index: the
/// last interval of `t` starts no later than that of `s`.
proof fn lemma_last_start(s: Seq<Range>, t: Seq<Range>)
    requires
        ranges_wf(s),
        ranges_wf(t),
        s.len() > 0,
        t.len() > 0,
        s.last().end == t.last().end,
        forall|x: int| ranges_contain(s, x) == ranges_contain(t, x),
    ensures
        t.last().start <= s.last().start,
{
    let a = s.last();
    let b = t.last();
    if a.start < b.start {
        let x = b.start - 1;
        assert(ranges_contain(s, x)) by {
            assert(s[s.len() - 1].start <= x <= s[s.len() - 1].end);
        }
        let k = choose|k: int| 0 <= k < t.len() && (#[trigger] t[k]).start <= x && x <= t[k].end;
        if k < t.len() - 1 {
            assert(t[k].end + 1 < t[t.len() - 1].start);
        }
        assert(false);
    }
}

/// The set that holds after the indices of `indices` were inserted, one
/// after the other, into an empty set.
pub open spec fn inserted(indices: Seq<usize>) -> Set<int>
    decreases indices.len(),
{
    if indices.len() == 0 {
        Set::<int>::empty()
    } else {
        inserted(indices.drop_last()).insert(indices.last() as int)
    }
}

/// After any sequence of insertions into an empty set, an index is active
/// if and only if it was inserted, and the count of active indices is the
/// number of distinct indices that were inserted.
pub proof fn lemma_insert_round_trip(encoder: RangeEncoder, indices: Seq<usize>)
    requires
        encoder.wf(),
        encoder@ == inserted(indices),
    ensures
        forall|i: int|
            encoder@.contains(i) <==> exists|k: int|
                0 <= k < indices.len() && #[trigger] indices[k] == i,
        encoder@.finite(),
        encoder.count() == encoder@.len(),
        encoder@ == indices.map_values(|i: usize| i as int).to_set(),
{
    lemma_inserted_members(indices);
    lemma_ranges_view_len(encoder.ranges());
    let as_ints = indices.map_values(|i: usize| i as int);
    assert forall|i: int| inserted(indices).contains(i) <==> as_ints.to_set().contains(i) by {
        if inserted(indices).contains(i) {
            let k = choose|k: int| 0 <= k < indices.len() && #[trigger] indices[k] == i;
            assert(as_ints[k] == i);
        }
        if as_ints.to_set().contains(i) {
            let k = choose|k: int| 0 <= k < as_ints.len() && as_ints[k] == i;
            assert(indices[k] == i);
        }
    }
    assert(encoder@ =~= as_ints.to_set());
}

/// What `inserted` holds: the indices of the sequence, and nothing else.
pub proof fn lemma_inserted_members(indices: Seq<usize>)
    ensures
        forall|i: int|
            inserted(indices).contains(i) <==> exists|k: int|
                0 <= k < indices.len() && #[trigger] indices[k] == i,
    decreases indices.len(),
{
    if indices.len() > 0 {
        let init = indices.drop_last();
        let last = indices.last() as int;
        lemma_inserted_members(init);
        assert(inserted(indices) == inserted(init).insert(last));
        assert forall|i: int| inserted(indices).contains(i) implies exists|k: int|
            0 <= k < indices.len() && #[trigger] indices[k] == i by {
            if i == last {
                assert(indices[indices.len() - 1] == i);
            } else {
                assert(inserted(init).contains(i));
                let k = choose|k: int| 0 <= k < init.len() && #[trigger] init[k] == i;
                assert(indices[k] == i);
            }
        }
        assert forall|i: int|
            (exists|k: int| 0 <= k < indices.len() && #[trigger] indices[k] == i)
                implies inserted(indices).contains(i) by {
            let k = choose|k: int| 0 <= k < indices.len() && #[trigger] indices[k] == i;
            if k < indices.len() - 1 {
                assert(init[k] == i);
                assert(inserted(init).contains(i));
            } else {
                assert(i == last);
            }
        }
    } else {
        assert(inserted(indices) == Set::<int>::empty());
    }
}

/// The intersection of two sets does not depend on the order in which they
/// are given: both results are the same list of intervals.
pub proof fn lemma_intersect_commutative(
    a: RangeEncoder,
    b: RangeEncoder,
    ab: RangeEncoder,
    ba: RangeEncoder,
)
    requires
        ab.wf(),
        ba.wf(),
        ab@ == a@.intersect(b@),
        ba@ == b@.intersect(a@),
    ensures
        ab.ranges() == ba.ranges(),
{
    assert(a@.intersect(b@) =~= b@.intersect(a@));
    lemma_ranges_unique(ab.ranges(), ba.ranges());
}

/// The intersection of a set with itself is the same list of intervals.
pub proof fn lemma_intersect_self(a: RangeEncoder, aa: RangeEncoder)
    requires
        a.wf(),
        aa.wf(),
        aa@ == a@.intersect(a@),
    ensures
        aa.ranges() == a.ranges(),
{
    assert(a@.intersect(a@) =~= a@);
    lemma_ranges_unique(aa.ranges(), a.ranges());
}

/// The intersection of two sets that share no index holds no interval.
pub proof fn lemma_intersect_disjoint(a: RangeEncoder, b: RangeEncoder, ab: RangeEncoder)
    requires
        ab.wf(),
        ab@ == a@.intersect(b@),
        a@.disjoint(b@),
    ensures
        ab.ranges() == Seq::<Range>::empty(),
        ab@ == Set::<int>::empty(),
{
    assert(a@.intersect(b@) =~= Set::<int>::empty());
    assert(ranges_view(Seq::<Range>::empty()) =~= Set::<int>::empty());
    lemma_ranges_unique(ab.ranges(), Seq::<Range>::empty());
}

} // verus!
