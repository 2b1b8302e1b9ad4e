//! The largest rectangle of active cells that starts in a column of a grid.
//!
//! From a column the search walks to the right and keeps the rows that are
//! active in every column so far. The longest run of such rows, with the
//! number of columns that were walked, is a candidate; the candidate of the
//! largest area wins.

use crate::grid::Grid;
use crate::range::Range;
use crate::range_encoder::{ranges_contain, ranges_wf, RangeEncoder};
use crate::u_rect::URect;
use vstd::prelude::*;

verus! {

/// The width that counts for a candidate that was reached after `steps`
/// steps to the right: the steps, and 1 for the starting column alone.
pub open spec fn weight(steps: int) -> int {
    if steps == 0 {
        1
    } else {
        steps
    }
}

/// The rows `first ..= last` are active in each of the columns
/// `start ..= start + steps` of `grid`.
pub open spec fn is_candidate(grid: &Grid, start: int, steps: int, first: int, last: int) -> bool {
    &&& 0 <= start
    &&& 0 <= steps
    &&& start + steps < grid.spec_grid_size()
    &&& 0 <= first <= last
    &&& forall|column: int, row: int|
        start <= column <= start + steps && first <= row <= last ==> #[trigger] grid.column_view(
            column,
        ).contains(row)
}

/// `row` is active in each of the columns `start .. end` of `grid`.
pub open spec fn is_common_row(grid: &Grid, start: int, end: int, row: int) -> bool {
    forall|column: int| start <= column < end ==> #[trigger] grid.column_view(column).contains(row)
}

/// Every cell of `rect` is active in `grid`. The rectangle spans the
/// columns from `y` on and the rows from `x` on.
pub open spec fn is_active_rect(grid: &Grid, rect: URect) -> bool {
    &&& rect.spec_y() + rect.spec_w() <= grid.spec_grid_size()
    &&& forall|column: int, row: int|
        rect.spec_y() <= column < rect.spec_y() + rect.spec_w() && rect.spec_x() <= row
            < rect.spec_x() + rect.spec_h() ==> #[trigger] grid.column_view(column).contains(row)
}

/// `rect` is a candidate: its rows are active in each column from its first
/// one to the one that some number of steps to the right leads to, and its
/// width is the width that counts for these steps.
pub open spec fn is_candidate_rect(grid: &Grid, rect: URect) -> bool {
    exists|steps: int|
        #[trigger] is_candidate(
            grid,
            rect.spec_y() as int,
            steps,
            rect.spec_x() as int,
            rect.spec_x() + rect.spec_h() - 1,
        ) && rect.spec_w() == weight(steps)
}

/// A grid that is taken apart into rectangles.
pub struct GridReducer {
    grid: Grid,
    rects: Vec<URect>,
}

impl GridReducer {
    pub closed spec fn spec_grid(&self) -> &Grid {
        &self.grid
    }

    pub open spec fn wf(&self) -> bool {
        self.spec_grid().wf()
    }

    pub fn new(grid: Grid) -> (reducer: Self)
        requires
            grid.wf(),
        ensures
            reducer.wf(),
            *reducer.spec_grid() == grid,
    {
        Self { grid, rects: Vec::new() }
    }

    /// A candidate of the largest area over all columns. None on an empty
    /// grid.
    pub fn biggest_rect(&self) -> (biggest: Option<URect>)
        requires
            self.wf(),
        ensures
            biggest is None <==> self.spec_grid()@ == Set::<crate::cell::Cell>::empty(),
            biggest matches Some(rect) ==> {
                &&& rect.wf()
                &&& is_active_rect(self.spec_grid(), rect)
                &&& is_candidate_rect(self.spec_grid(), rect)
                &&& forall|start: int, steps: int, first: int, last: int|
                    #[trigger] is_candidate(self.spec_grid(), start, steps, first, last) ==> (last
                        - first + 1) * weight(steps) <= rect.spec_w() * rect.spec_h()
            },
    {
        if self.grid.is_empty() {
            return None;
        }
        let mut biggest_rect: Option<URect> = None;
        let mut biggest_area: u128 = 0;
        let grid_size: usize = self.grid.get_grid_size();
        let mut i: usize = 0;
        while i < grid_size
            invariant
                self.wf(),
                grid_size == self.grid.spec_grid_size(),
                i <= grid_size,
                biggest_rect is None ==> biggest_area == 0,
                biggest_rect is None ==> forall|column: int, row: int|
                    0 <= column < i ==> !#[trigger] self.grid.column_view(column).contains(row),
                biggest_rect matches Some(rect) ==> {
                    &&& rect.wf()
                    &&& is_active_rect(&self.grid, rect)
                    &&& is_candidate_rect(&self.grid, rect)
                    &&& biggest_area == rect.spec_w() * rect.spec_h()
                },
                forall|start: int, steps: int, first: int, last: int|
                    start < i && #[trigger] is_candidate(&self.grid, start, steps, first, last)
                        ==> (last - first + 1) * weight(steps) <= biggest_area,
            decreases grid_size - i,
        {
            match self.biggest_rect_starting_in_collum(i) {
                Some((new_biggest_rect, area)) => {
                    assert(area >= 1) by (nonlinear_arith)
                        requires
                            area == new_biggest_rect.spec_w() * new_biggest_rect.spec_h(),
                            new_biggest_rect.spec_w() >= 1,
                            new_biggest_rect.spec_h() >= 1,
                    ;
                    if area > biggest_area {
                        biggest_area = area;
                        biggest_rect = Some(new_biggest_rect);
                    }
                },
                None => {
                    assert forall|start: int, steps: int, first: int, last: int|
                        start == i && #[trigger] is_candidate(
                            &self.grid,
                            start,
                            steps,
                            first,
                            last,
                        ) implies false by {
                        assert(self.grid.column_view(start).contains(first));
                    }
                    assert forall|row: int| !self.grid.column_view(i as int).contains(row) by {}
                },
            }
            i = i + 1;
        }
        proof {
            if biggest_rect is None {
                assert(exists|cell: crate::cell::Cell| self.grid@.contains(cell)) by {
                    if forall|c: crate::cell::Cell| !self.grid@.contains(c) {
                        assert(self.grid@ =~= Set::<crate::cell::Cell>::empty());
                    }
                }
                let cell = choose|cell: crate::cell::Cell| self.grid@.contains(cell);
                assert(self.grid.column_view(self.grid.spec_column(cell)).contains(
                    self.grid.spec_row(cell),
                ));
            }
        }
        biggest_rect
    }

    /// A candidate of the largest area among those that start in the column
    /// `starting_collum_index`, with its area. None if the column is empty.
    fn biggest_rect_starting_in_collum(&self, starting_collum_index: usize) -> (biggest: Option<
        (URect, u128),
    >)
        requires
            self.wf(),
            starting_collum_index < self.spec_grid().spec_grid_size(),
        ensures
            biggest is None <==> self.spec_grid().column_view(starting_collum_index as int)
                == Set::<int>::empty(),
            biggest matches Some(found) ==> {
                &&& found.0.wf()
                &&& found.0.spec_y() == starting_collum_index
                &&& found.1 == found.0.spec_w() * found.0.spec_h()
                &&& is_active_rect(self.spec_grid(), found.0)
                &&& is_candidate_rect(self.spec_grid(), found.0)
                &&& forall|steps: int, first: int, last: int|
                    #[trigger] is_candidate(
                        self.spec_grid(),
                        starting_collum_index as int,
                        steps,
                        first,
                        last,
                    ) ==> (last - first + 1) * weight(steps) <= found.1
            },
    {
        let start: usize = starting_collum_index;
        let grid_size: usize = self.grid.get_grid_size();
        let collum = self.grid.get_collum(start);
        if collum.is_empty() {
            return None;
        }
        let mut intersection = collum.intersect(collum);
        proof {
            assert(intersection@ =~= self.grid.column_view(start as int));
            if intersection.ranges().len() == 0 {
                assert(intersection@ =~= Set::<int>::empty());
            }
            assert forall|row: int|
                intersection@.contains(row) <==> #[trigger] is_common_row(
                    &self.grid,
                    start as int,
                    start + 1,
                    row,
                ) by {
                if intersection@.contains(row) {
                    assert(self.grid.column_view(start as int).contains(row));
                }
                if is_common_row(&self.grid, start as int, start + 1, row) {
                    assert(self.grid.column_view(start as int).contains(row));
                }
            }
        }
        let mut biggest_range_rect = get_longest_range(&intersection);
        let mut biggest_area: u128 = biggest_range_rect.len() as u128;
        let mut width: usize = 1;
        let ghost mut steps: int = 0;
        assert(biggest_area == biggest_range_rect.spec_len() * width) by (nonlinear_arith)
            requires
                biggest_area == biggest_range_rect.spec_len(),
                width == 1,
        ;
        proof {
            assert forall|first: int, last: int|
                #[trigger] is_candidate(&self.grid, start as int, 0, first, last) implies (last
                - first + 1) * weight(0) <= biggest_area by {
                assert forall|row: int| first <= row <= last implies ranges_contain(
                    intersection.ranges(),
                    row,
                ) by {
                    assert(self.grid.column_view(start as int).contains(row));
                }
                lemma_run_in_one_range(intersection.ranges(), first, last);
            }
        }
        let mut collum_index: usize = start + 1;
        let mut stopped = false;
        while collum_index < grid_size && !stopped
            invariant
                self.wf(),
                grid_size == self.grid.spec_grid_size(),
                start < collum_index <= grid_size,
                intersection.wf(),
                forall|row: int| intersection@.contains(row) ==> 0 <= row < usize::MAX,
                !stopped ==> forall|row: int|
                    intersection@.contains(row) <==> #[trigger] is_common_row(
                        &self.grid,
                        start as int,
                        collum_index as int,
                        row,
                    ),
                stopped ==> forall|row: int|
                    !#[trigger] is_common_row(&self.grid, start as int, collum_index as int, row),
                biggest_range_rect.wf(),
                biggest_range_rect.end < usize::MAX,
                1 <= width <= collum_index - start,
                0 <= steps < collum_index - start,
                width == weight(steps),
                forall|column: int, row: int|
                    start <= column <= start + steps && biggest_range_rect.start <= row
                        <= biggest_range_rect.end ==> #[trigger] self.grid.column_view(
                        column,
                    ).contains(row),
                biggest_area == biggest_range_rect.spec_len() * width,
                forall|column: int, row: int|
                    start <= column < start + width && biggest_range_rect.start <= row
                        <= biggest_range_rect.end ==> #[trigger] self.grid.column_view(
                        column,
                    ).contains(row),
                forall|steps: int, first: int, last: int|
                    steps < collum_index - start && #[trigger] is_candidate(
                        &self.grid,
                        start as int,
                        steps,
                        first,
                        last,
                    ) ==> (last - first + 1) * weight(steps) <= biggest_area,
            decreases grid_size - collum_index + (if stopped {
                0int
            } else {
                1int
            }),
        {
            let ghost rows_before = intersection@;
            intersection = intersection.intersect(self.grid.get_collum(collum_index));
            let delta_y: usize = collum_index - start;
            proof {
                assert forall|row: int|
                    intersection@.contains(row) <==> #[trigger] is_common_row(
                        &self.grid,
                        start as int,
                        collum_index + 1,
                        row,
                    ) by {
                    if intersection@.contains(row) {
                        assert(rows_before.contains(row));
                        assert(is_common_row(&self.grid, start as int, collum_index as int, row));
                    }
                    if is_common_row(&self.grid, start as int, collum_index + 1, row) {
                        assert(self.grid.column_view(collum_index as int).contains(row));
                        assert(is_common_row(&self.grid, start as int, collum_index as int, row));
                        assert(rows_before.contains(row));
                    }
                }
            }
            if intersection.is_empty() {
                stopped = true;
                proof {
                    assert forall|first: int, last: int|
                        #[trigger] is_candidate(
                            &self.grid,
                            start as int,
                            delta_y as int,
                            first,
                            last,
                        ) implies false by {
                        assert(is_common_row(&self.grid, start as int, collum_index + 1, first));
                        assert(intersection@.contains(first));
                    }
                    assert forall|row: int|
                        !#[trigger] is_common_row(&self.grid, start as int, collum_index + 1, row) by {
                        assert(!intersection@.contains(row));
                    }
                }
            } else {
                let longest_range = get_longest_range(&intersection);
                let longest_len: usize = longest_range.len();
                assert(longest_len * delta_y <= 0xffff_ffff_ffff_ffff * 0xffff_ffff_ffff_ffff)
                    by (nonlinear_arith)
                    requires
                        0 <= longest_len <= 0xffff_ffff_ffff_ffff,
                        0 <= delta_y <= 0xffff_ffff_ffff_ffff,
                ;
                let area: u128 = longest_len as u128 * delta_y as u128;
                proof {
                    assert forall|first: int, last: int|
                        #[trigger] is_candidate(
                            &self.grid,
                            start as int,
                            delta_y as int,
                            first,
                            last,
                        ) implies (last - first + 1) * weight(delta_y as int) <= area by {
                        assert forall|row: int| first <= row <= last implies ranges_contain(
                            intersection.ranges(),
                            row,
                        ) by {
                            assert(is_common_row(&self.grid, start as int, collum_index + 1, row));
                            assert(intersection@.contains(row));
                        }
                        lemma_run_in_one_range(intersection.ranges(), first, last);
                        assert((last - first + 1) * delta_y <= longest_range.spec_len() * delta_y)
                            by (nonlinear_arith)
                            requires
                                last - first + 1 <= longest_range.spec_len(),
                                delta_y >= 0,
                        ;
                    }
                    assert forall|row: int|
                        longest_range.start <= row <= longest_range.end implies intersection@.contains(
                        row,
                    ) by {
                        let k = choose|k: int|
                            0 <= k < intersection.ranges().len() && intersection.ranges()[k]
                                == longest_range;
                        assert(intersection.ranges()[k].start <= row <= intersection.ranges()[k].end);
                    }
                    assert forall|column: int, row: int|
                        start <= column <= start + delta_y && longest_range.start <= row
                            <= longest_range.end implies #[trigger] self.grid.column_view(
                        column,
                    ).contains(row) by {
                        assert(intersection@.contains(row));
                        assert(is_common_row(&self.grid, start as int, collum_index + 1, row));
                    }
                }
                if area > biggest_area {
                    biggest_range_rect = longest_range;
                    biggest_area = area;
                    width = delta_y;
                    proof {
                        steps = delta_y as int;
                    }
                }
            }
            collum_index = collum_index + 1;
        }
        let h: usize = biggest_range_rect.len();
        proof {
            assert(biggest_area / (h as u128) == width) by (nonlinear_arith)
                requires
                    biggest_area == h * width,
                    h > 0,
            ;
            assert forall|steps: int, first: int, last: int|
                #[trigger] is_candidate(
                    &self.grid,
                    start as int,
                    steps,
                    first,
                    last,
                ) implies (last - first + 1) * weight(steps) <= biggest_area by {
                if steps >= collum_index - start {
                    // The search stopped at a column without a common row.
                    assert(stopped);
                    assert(is_common_row(&self.grid, start as int, collum_index as int, first));
                }
            }
        }
        let rect = URect::new(
            biggest_range_rect.start,
            starting_collum_index,
            (biggest_area / h as u128) as usize,
            h,
        );
        proof {
            assert(rect.spec_w() == width);
            assert(biggest_area == rect.spec_w() * rect.spec_h()) by (nonlinear_arith)
                requires
                    biggest_area == h * width,
                    rect.spec_w() == width,
                    rect.spec_h() == h,
            ;
            assert(is_active_rect(&self.grid, rect));
            assert(is_candidate(
                &self.grid,
                rect.spec_y() as int,
                steps,
                rect.spec_x() as int,
                rect.spec_x() + rect.spec_h() - 1,
            ));
        }
        Some((rect, biggest_area))
    }
}

/// The longest interval of `range_encoder`; of several the last.
fn get_longest_range(range_encoder: &RangeEncoder) -> (longest: Range)
    requires
        range_encoder.wf(),
        range_encoder.ranges().len() > 0,
        forall|row: int| range_encoder@.contains(row) ==> 0 <= row < usize::MAX,
    ensures
        longest.wf(),
        longest.end < usize::MAX,
        exists|k: int|
            0 <= k < range_encoder.ranges().len() && range_encoder.ranges()[k] == longest,
        forall|k: int|
            0 <= k < range_encoder.ranges().len() ==> (
            #[trigger] range_encoder.ranges()[k]).spec_len() <= longest.spec_len(),
{
    let ranges = range_encoder.get_activ_ranges();
    proof {
        assert forall|k: int| 0 <= k < ranges@.len() implies (#[trigger] ranges@[k]).end
            < usize::MAX by {
            assert(ranges_contain(ranges@, ranges@[k].end as int));
            assert(range_encoder@.contains(ranges@[k].end as int));
        }
    }
    let mut longest: Range = ranges[0];
    let mut k: usize = 1;
    while k < ranges.len()
        invariant
            1 <= k <= ranges@.len(),
            ranges_wf(ranges@),
            forall|j: int| 0 <= j < ranges@.len() ==> (#[trigger] ranges@[j]).end < usize::MAX,
            exists|j: int| 0 <= j < k && ranges@[j] == longest,
            forall|j: int| 0 <= j < k ==> (#[trigger] ranges@[j]).spec_len() <= longest.spec_len(),
        decreases ranges@.len() - k,
    {
        if ranges[k].len() >= longest.len() {
            longest = ranges[k];
        }
        k = k + 1;
    }
    longest
}

/// A run of indices that a well-formed list holds lies in one of its
/// intervals.
pub proof fn lemma_run_in_one_range(s: Seq<Range>, first: int, last: int)
    requires
        ranges_wf(s),
        first <= last,
        forall|i: int| first <= i <= last ==> ranges_contain(s, i),
    ensures
        exists|k: int| 0 <= k < s.len() && (#[trigger] s[k]).start <= first && last <= s[k].end,
    decreases last - first,
{
    if first == last {
        assert(ranges_contain(s, first));
        let k = choose|k: int| 0 <= k < s.len() && (#[trigger] s[k]).start <= first && first <= s[k].end;
        assert(s[k].start <= first && last <= s[k].end);
    } else {
        lemma_run_in_one_range(s, first, last - 1);
        let k = choose|k: int|
            0 <= k < s.len() && (#[trigger] s[k]).start <= first && last - 1 <= s[k].end;
        assert(ranges_contain(s, last));
        let m = choose|m: int| 0 <= m < s.len() && (#[trigger] s[m]).start <= last && last <= s[m].end;
        if m != k {
            if m < k {
                assert(s[m].end + 1 < s[k].start);
            } else {
                assert(s[k].end + 1 < s[m].start);
            }
            assert(false);
        }
    }
}

} // verus!
