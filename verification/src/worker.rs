//! The sampler of discovery: what one worker keeps of its tests of a cell,
//! and when it reports the cell.
//!
//! A worker tests its cell in rounds of four samples. The caller draws the
//! samples and counts their iterations; the worker takes the counts, keeps
//! the deepest, and after the last round of a cell says whether the cell is
//! reported.

use crate::cell::Cell;
use crate::sampled_cell::SampledCell;
use vstd::prelude::*;

verus! {

/// The budget of iterations of one test of a sample.
pub const TEST_ITERATIONS: usize = 1024;

/// The sample left the disc of radius 2, but not before `limit`
/// iterations: it lies near the boundary of the set.
pub open spec fn escapes_late(iterations: i64, limit: usize, max_iterations: usize) -> bool {
    limit <= iterations && iterations < max_iterations
}

/// One of four samples escapes late.
pub open spec fn any_escapes_late(iterations: [i64; 4], limit: usize, max_iterations: usize) -> bool {
    exists|lane: int| 0 <= lane < 4 && escapes_late(#[trigger] iterations[lane], limit, max_iterations)
}

/// The larger of two counts.
pub open spec fn max_of(a: i64, b: i64) -> i64 {
    if a >= b {
        a
    } else {
        b
    }
}

/// The largest of four counts.
pub open spec fn horizontal_max(lanes: [i64; 4]) -> i64 {
    max_of(max_of(lanes[0], lanes[1]), max_of(lanes[2], lanes[3]))
}

/// The packed index of `cell` fits a record.
pub open spec fn recordable(cell: Cell, grid_size: usize) -> bool {
    &&& cell.has_index_2d(grid_size)
    &&& cell.spec_index(grid_size) <= u32::MAX
}

/// The test of four samples of a cell, given the iterations that each of
/// them took under a budget of `max_iterations`: the counts, and whether
/// one of the samples escaped, but not before `limit` iterations.
pub fn quad_test_in_cell(iterations: [i64; 4], limit: usize, max_iterations: usize) -> (r: (
    [i64; 4],
    bool,
))
    ensures
        r.0 == iterations,
        r.1 == any_escapes_late(iterations, limit, max_iterations),
{
    let mut is_inside = false;
    let mut lane: usize = 0;
    while lane < 4
        invariant
            lane <= 4,
            is_inside == exists|k: int|
                0 <= k < lane && escapes_late(#[trigger] iterations[k], limit, max_iterations),
        decreases 4 - lane,
    {
        let count: i128 = iterations[lane] as i128;
        if limit as i128 <= count && count < max_iterations as i128 {
            is_inside = true;
        }
        lane = lane + 1;
    }
    (iterations, is_inside)
}

/// What a worker does after a round.
#[derive(Debug, Clone, Copy, PartialEq, Eq, Structural)]
pub enum WorkerStep {
    /// The cell has rounds left: test it again.
    Continue,
    /// The cell is done. Its record is to be sent, if there is one, and the
    /// next cell is to be fetched.
    Replace(Option<SampledCell>),
}

/// The state of one worker.
#[derive(Debug, Clone, Copy)]
pub struct Worker {
    current_cells: [Cell; 4],
    sampels: usize,
    grid_size: usize,
    limit: usize,
    max_iterations: [i64; 4],
    current_iterations: usize,
    any_inside: bool,
}

impl Worker {
    /// The cell under test.
    pub closed spec fn spec_current_cell(&self) -> Cell {
        self.current_cells[0]
    }

    /// The rounds of four samples that each cell gets.
    pub closed spec fn spec_sampels(&self) -> usize {
        self.sampels
    }

    pub closed spec fn spec_grid_size(&self) -> usize {
        self.grid_size
    }

    pub closed spec fn spec_limit(&self) -> usize {
        self.limit
    }

    /// The deepest count of each lane in the rounds of the cell so far.
    pub closed spec fn spec_max_iterations(&self) -> [i64; 4] {
        self.max_iterations
    }

    /// The rounds of the cell so far.
    pub closed spec fn spec_current_iterations(&self) -> usize {
        self.current_iterations
    }

    /// Whether a sample of the cell escaped late so far.
    pub closed spec fn spec_any_inside(&self) -> bool {
        self.any_inside
    }

    /// The cell under test can be recorded, the deepest counts lie within
    /// the budget of a test, the cell has rounds left, and where a sample
    /// escaped late the deepest count reaches the limit.
    pub closed spec fn wf(&self) -> bool {
        &&& forall|lane: int| 0 <= lane < 4 ==> #[trigger] self.current_cells[lane] == self.current_cells[0]
        &&& recordable(self.current_cells[0], self.grid_size)
        &&& forall|lane: int|
            0 <= lane < 4 ==> 0 <= #[trigger] self.max_iterations[lane] <= TEST_ITERATIONS
        &&& (self.sampels == 0 || self.current_iterations < self.sampels)
        &&& (self.any_inside ==> horizontal_max(self.max_iterations) >= self.limit)
    }

    /// A worker for a run with `sampels` samples for each cell, in rounds of
    /// four. Until it is given a cell it tests the cell at the origin.
    pub fn start(limit: usize, sampels: usize, grid_size: usize) -> (worker: Self)
        requires
            recordable(Cell { x: 0, y: 0 }, grid_size),
        ensures
            worker.wf(),
            worker.spec_current_cell() == (Cell { x: 0, y: 0 }),
            worker.spec_sampels() == sampels / 4,
            worker.spec_grid_size() == grid_size,
            worker.spec_limit() == limit,
            worker.spec_max_iterations() == [0i64, 0i64, 0i64, 0i64],
            worker.spec_current_iterations() == 0,
            !worker.spec_any_inside(),
    {
        Self {
            current_cells: [Cell::dummy();4],
            sampels: sampels / 4,
            grid_size,
            limit,
            max_iterations: [0;4],
            current_iterations: 0,
            any_inside: false,
        }
    }

    /// The cell under test.
    pub fn get_current_cells(&self) -> (cells: [Cell; 4])
        requires
            self.wf(),
        ensures
            forall|lane: int| 0 <= lane < 4 ==> #[trigger] cells[lane] == self.spec_current_cell(),
    {
        self.current_cells
    }

    /// Whether a record can be made of `cell` on the grid of this worker.
    pub fn is_recordable(&self, cell: Cell) -> (b: bool)
        ensures
            b == recordable(cell, self.spec_grid_size()),
    {
        let half: i128 = (self.grid_size / 2) as i128;
        let column: i128 = cell.x as i128 + half + 1;
        let row: i128 = cell.y as i128 + half;
        if half > i32::MAX as i128 || column < 0 || column > i32::MAX as i128 || row < 0 || row
            > i32::MAX as i128 {
            return false;
        }
        assert(row * (self.grid_size as i128) <= 0x7fff_ffff * 0xffff_ffff_ffff_ffff)
            by (nonlinear_arith)
            requires
                0 <= row <= 0x7fff_ffff,
                0 <= self.grid_size as i128 <= 0xffff_ffff_ffff_ffff,
        ;
        assert(0 <= row * (self.grid_size as i128)) by (nonlinear_arith)
            requires
                0 <= row,
                0 <= self.grid_size as i128,
        ;
        row * (self.grid_size as i128) + column <= u32::MAX as i128
    }

    /// Takes `new_cell` as the next cell to test, if it lies below the real
    /// axis; the upper half is covered by mirroring the samples. Returns
    /// whether the cell was taken.
    pub fn replace_current_cells(&mut self, new_cell: Cell) -> (taken: bool)
        requires
            old(self).wf(),
            new_cell.y < 0 ==> recordable(new_cell, old(self).spec_grid_size()),
        ensures
            final(self).wf(),
            taken == (new_cell.y < 0),
            final(self).spec_current_cell() == if taken {
                new_cell
            } else {
                old(self).spec_current_cell()
            },
            final(self).spec_sampels() == old(self).spec_sampels(),
            final(self).spec_grid_size() == old(self).spec_grid_size(),
            final(self).spec_limit() == old(self).spec_limit(),
            final(self).spec_max_iterations() == old(self).spec_max_iterations(),
            final(self).spec_current_iterations() == old(self).spec_current_iterations(),
            final(self).spec_any_inside() == old(self).spec_any_inside(),
    {
        if new_cell.is_y_negativ() {
            self.current_cells = [new_cell;4];
            true
        } else {
            false
        }
    }

    /// One round: takes the iterations that four samples of the cell under
    /// test took under a budget of `TEST_ITERATIONS`.
    ///
    /// After the last round of the cell the worker asks for the next cell.
    /// It reports the cell with the deepest count of all its rounds if one
    /// sample of one round escaped late, and starts over.
    pub fn work(&mut self, iterations: [i64; 4]) -> (step: WorkerStep)
        requires
            old(self).wf(),
            forall|lane: int| 0 <= lane < 4 ==> 0 <= #[trigger] iterations[lane] <= TEST_ITERATIONS,
        ensures
            final(self).wf(),
            final(self).spec_current_cell() == old(self).spec_current_cell(),
            final(self).spec_sampels() == old(self).spec_sampels(),
            final(self).spec_grid_size() == old(self).spec_grid_size(),
            final(self).spec_limit() == old(self).spec_limit(),
            old(self).is_last_round() ==> {
                &&& step == WorkerStep::Replace(old(self).spec_report(iterations))
                &&& final(self).spec_max_iterations() == [0i64, 0i64, 0i64, 0i64]
                &&& final(self).spec_current_iterations() == 0
                &&& !final(self).spec_any_inside()
            },
            !old(self).is_last_round() ==> {
                &&& step == WorkerStep::Continue
                &&& final(self).spec_max_iterations() == old(self).spec_merged(iterations)
                &&& final(self).spec_any_inside() == old(self).spec_inside_with(iterations)
                &&& final(self).spec_current_iterations() == if old(self).spec_sampels() == 0 {
                    old(self).spec_current_iterations() as int
                } else {
                    old(self).spec_current_iterations() + 1
                }
            },
            step matches WorkerStep::Replace(Some(record)) ==> {
                &&& old(self).spec_limit() <= record.highest_iteration <= TEST_ITERATIONS
                &&& record.highest_iteration == horizontal_max(old(self).spec_merged(iterations))
                &&& old(self).spec_inside_with(iterations)
            },
    {
        let (iterations, is_inside) = quad_test_in_cell(iterations, self.limit, TEST_ITERATIONS);
        let ghost before = *self;
        let mut lane: usize = 0;
        while lane < 4
            invariant
                lane <= 4,
                forall|k: int| 0 <= k < 4 ==> 0 <= #[trigger] iterations[k] <= TEST_ITERATIONS,
                forall|k: int|
                    0 <= k < 4 ==> 0 <= #[trigger] before.max_iterations[k] <= TEST_ITERATIONS,
                forall|k: int|
                    0 <= k < lane ==> #[trigger] self.max_iterations[k] == max_of(
                        before.max_iterations[k],
                        iterations[k],
                    ),
                forall|k: int|
                    lane <= k < 4 ==> #[trigger] self.max_iterations[k] == before.max_iterations[k],
                self.current_cells == before.current_cells,
                self.sampels == before.sampels,
                self.grid_size == before.grid_size,
                self.limit == before.limit,
                self.current_iterations == before.current_iterations,
                self.any_inside == before.any_inside,
            decreases 4 - lane,
        {
            if iterations[lane] > self.max_iterations[lane] {
                self.max_iterations[lane] = iterations[lane];
            }
            lane = lane + 1;
        }
        assert(self.max_iterations == before.spec_merged(iterations)) by {
            assert(self.max_iterations@ =~= before.spec_merged(iterations)@);
        }
        self.any_inside = self.any_inside || is_inside;
        proof {
            if is_inside {
                let witness = choose|k: int|
                    0 <= k < 4 && escapes_late(
                        #[trigger] iterations[k],
                        self.limit,
                        TEST_ITERATIONS,
                    );
                assert(self.max_iterations[witness] >= self.limit);
            }
        }
        if self.sampels == 0 || self.current_iterations + 1 < self.sampels {
            if self.sampels > 0 {
                self.current_iterations = self.current_iterations + 1;
            }
            return WorkerStep::Continue;
        }
        let report = if self.any_inside {
            let deepest: i64 = get_horizontal_max(self.max_iterations);
            Some(SampledCell::new(self.current_cells[0], deepest as u16, self.grid_size))
        } else {
            None
        };
        self.max_iterations = [0;4];
        self.current_iterations = 0;
        self.any_inside = false;
        WorkerStep::Replace(report)
    }

    /// This round is the last one of the cell under test.
    pub open spec fn is_last_round(&self) -> bool {
        self.spec_sampels() > 0 && self.spec_current_iterations() + 1 == self.spec_sampels()
    }

    /// The deepest counts of the lanes after a round with `iterations`.
    pub open spec fn spec_merged(&self, iterations: [i64; 4]) -> [i64; 4] {
        [
            max_of(self.spec_max_iterations()[0], iterations[0]),
            max_of(self.spec_max_iterations()[1], iterations[1]),
            max_of(self.spec_max_iterations()[2], iterations[2]),
            max_of(self.spec_max_iterations()[3], iterations[3]),
        ]
    }

    /// Whether a sample escaped late in the rounds so far or in a round
    /// with `iterations`.
    pub open spec fn spec_inside_with(&self, iterations: [i64; 4]) -> bool {
        self.spec_any_inside() || any_escapes_late(iterations, self.spec_limit(), TEST_ITERATIONS)
    }

    /// The record that is sent when the cell is done after a round with
    /// `iterations`: none, unless a sample escaped late.
    pub open spec fn spec_report(&self, iterations: [i64; 4]) -> Option<SampledCell> {
        if self.spec_inside_with(iterations) {
            Some(
                SampledCell {
                    cell_index: self.spec_current_cell().spec_index(self.spec_grid_size()) as u32,
                    highest_iteration: horizontal_max(self.spec_merged(iterations)) as u16,
                },
            )
        } else {
            None
        }
    }
}

/// The largest of four counts.
fn get_horizontal_max(lanes: [i64; 4]) -> (max: i64)
    ensures
        max == horizontal_max(lanes),
{
    let low: i64 = if lanes[0] >= lanes[1] {
        lanes[0]
    } else {
        lanes[1]
    };
    let high: i64 = if lanes[2] >= lanes[3] {
        lanes[2]
    } else {
        lanes[3]
    };
    if low >= high {
        low
    } else {
        high
    }
}

} // verus!
