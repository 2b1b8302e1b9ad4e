//! The coordinator of discovery: a flood fill over the cells whose samples
//! escape late.
//!
//! The coordinator owns the grid. It hands cells out to be sampled, takes
//! back the records of those that were accepted, and decides for each of
//! them which of its neighbours are handed out next. Sampling itself, the
//! channels and the clock stay with the caller: it passes the records and
//! the time in, and sends the cells that come back.

use crate::cell::Cell;
use crate::grid::Grid;
use crate::sample_cells::SampleCells;
use crate::sampled_cell::SampledCell;
use crate::sorting::{is_order_by_key, lemma_reordered_to_multiset, order_by_key};
use vstd::prelude::*;

verus! {

/// How long no new cell may have been handed out before discovery is taken
/// to be over, in milliseconds.
pub const QUIESCENCE_MILLIS: u64 = 500;

/// Where the coordinator stands.
#[derive(Debug, Clone, Copy, PartialEq, Eq, Structural)]
pub enum Phase {
    /// The last pass handed out new cells.
    Running,
    /// The last pass handed out nothing; the time since the last new cell
    /// is running.
    Quiescent,
    /// Nothing new was handed out for longer than `QUIESCENCE_MILLIS`.
    Finished,
}

/// No neighbour of `cell` is known: `cell` is worth sampling.
pub open spec fn is_new(known: Set<Cell>, cell: Cell) -> bool {
    forall|k: int| 0 <= k < 4 ==> !known.contains(#[trigger] cell.spec_neighbors()[k])
}

/// `cell` is unexplored: it is not known itself, and no neighbour of it is
/// known.
pub open spec fn is_unexplored(known: Set<Cell>, cell: Cell) -> bool {
    !known.contains(cell) && is_new(known, cell)
}

/// Those of the first `n` neighbours of `cell` that are unexplored, in the
/// order of the neighbours.
pub open spec fn expansion_upto(known: Set<Cell>, cell: Cell, n: int) -> Seq<Cell>
    decreases n,
{
    if n <= 0 {
        Seq::empty()
    } else if is_unexplored(known, cell.spec_neighbors()[n - 1]) {
        expansion_upto(known, cell, n - 1).push(cell.spec_neighbors()[n - 1])
    } else {
        expansion_upto(known, cell, n - 1)
    }
}

/// The cells that are handed out when `cell` is accepted while `known` is
/// the set of known cells: the unexplored ones among its four neighbours.
pub open spec fn expansion(known: Set<Cell>, cell: Cell) -> Seq<Cell> {
    expansion_upto(known, cell, 4)
}

/// The known cells after the cells of `accepted` were accepted one after
/// the other.
pub open spec fn known_after(known: Set<Cell>, accepted: Seq<Cell>) -> Set<Cell>
    decreases accepted.len(),
{
    if accepted.len() == 0 {
        known
    } else {
        known_after(known, accepted.drop_last()).insert(accepted.last())
    }
}

/// The cells that were handed out while the cells of `accepted` were
/// accepted one after the other, in the order in which they were handed
/// out.
pub open spec fn dispatched_after(known: Set<Cell>, accepted: Seq<Cell>) -> Seq<Cell>
    decreases accepted.len(),
{
    if accepted.len() == 0 {
        Seq::empty()
    } else {
        dispatched_after(known, accepted.drop_last()) + expansion(
            known_after(known, accepted.drop_last()),
            accepted.last(),
        )
    }
}

/// The cells that discovery starts from: a short run along the row below
/// the real axis, right of the origin.
pub open spec fn spec_seeds(grid_size: usize) -> Seq<Cell> {
    Seq::new(
        (grid_size / 100 + 1) as nat,
        |k: int| Cell { x: (grid_size / 16 + k) as i32, y: -1i32 },
    )
}

/// The phase after a pass that handed out new cells or not, and found the
/// time since the last new cell run out or not.
pub open spec fn next_phase(phase: Phase, changed: bool, timed_out: bool) -> Phase {
    if phase == Phase::Finished {
        Phase::Finished
    } else if changed {
        Phase::Running
    } else if timed_out {
        Phase::Finished
    } else {
        Phase::Quiescent
    }
}

/// The cells that the records of `records` name.
pub open spec fn cells_of(records: Seq<SampledCell>, grid_size: usize) -> Seq<Cell> {
    Seq::new(records.len(), |k: int| records[k].spec_cell(grid_size))
}

/// The state of the coordinator.
pub struct CovarageGridGen {
    inside_cells: Grid,
    grid_size: usize,
    processed_cells_count: usize,
    saved_cells: Vec<SampledCell>,
    last_cell_count_change: u64,
    phase: Phase,
}

impl CovarageGridGen {
    /// The cells that were accepted.
    pub closed spec fn known(&self) -> Set<Cell> {
        self.inside_cells@
    }

    /// The records of the accepted cells, in the order in which they came
    /// in.
    pub closed spec fn spec_saved_cells(&self) -> Seq<SampledCell> {
        self.saved_cells@
    }

    pub closed spec fn spec_grid_size(&self) -> usize {
        self.grid_size
    }

    /// How many cells were handed out after the seeds.
    pub closed spec fn spec_processed_cells_count(&self) -> usize {
        self.processed_cells_count
    }

    /// When a new cell was handed out last, in milliseconds.
    pub closed spec fn spec_last_cell_count_change(&self) -> u64 {
        self.last_cell_count_change
    }

    pub closed spec fn spec_phase(&self) -> Phase {
        self.phase
    }

    /// The grid is sound and has the size of the run, and it holds the
    /// cells of the saved records and no others.
    pub closed spec fn wf(&self) -> bool {
        &&& self.inside_cells.wf()
        &&& self.inside_cells.spec_grid_size() == self.grid_size
        &&& forall|k: int|
            0 <= k < self.saved_cells@.len() ==> self.accepts(#[trigger] self.saved_cells@[k])
        &&& forall|cell: Cell|
            self.inside_cells@.contains(cell) <==> cells_of(
                self.saved_cells@,
                self.grid_size,
            ).contains(cell)
    }

    /// The record names a cell of this grid that the coordinator can take
    /// in: it lies in the window of the grid, and it and its neighbours
    /// have their four neighbours.
    pub open spec fn accepts(&self, record: SampledCell) -> bool {
        let cell = record.spec_cell(self.spec_grid_size());
        let half = (self.spec_grid_size() / 2) as int;
        &&& record.decodable(self.spec_grid_size())
        &&& i32::MIN + 2 <= cell.x <= i32::MAX - 2
        &&& i32::MIN + 2 <= cell.y <= i32::MAX - 2
        &&& 0 <= cell.x + half < self.spec_grid_size()
        &&& 0 <= cell.y + half
    }

    /// The coordinator at the start of a run at time `now`, and the seeds,
    /// which are to be handed out first.
    pub fn new(grid_size: usize, now: u64) -> (r: (Self, Vec<Cell>))
        requires
            grid_size <= i32::MAX,
        ensures
            r.0.wf(),
            r.0.known() == Set::<Cell>::empty(),
            r.0.spec_saved_cells() == Seq::<SampledCell>::empty(),
            r.0.spec_grid_size() == grid_size,
            r.0.spec_processed_cells_count() == 0,
            r.0.spec_last_cell_count_change() == now,
            r.0.spec_phase() == Phase::Running,
            r.1@ == spec_seeds(grid_size),
    {
        let starting_x: i32 = (grid_size / 16) as i32;
        let last_x: i32 = starting_x + (grid_size / 100) as i32;
        let mut seeds: Vec<Cell> = Vec::new();
        let mut x: i32 = starting_x;
        while x <= last_x
            invariant
                starting_x == grid_size / 16,
                last_x == grid_size / 16 + grid_size / 100,
                grid_size <= i32::MAX,
                starting_x <= x <= last_x + 1,
                seeds@.len() == x - starting_x,
                forall|k: int|
                    0 <= k < seeds@.len() ==> seeds@[k] == (Cell {
                        x: (grid_size / 16 + k) as i32,
                        y: -1i32,
                    }),
            decreases last_x + 1 - x,
        {
            seeds.push(Cell::new(x, -1));
            x = x + 1;
        }
        assert(seeds@ =~= spec_seeds(grid_size));
        let generator = CovarageGridGen {
            inside_cells: Grid::new(grid_size),
            grid_size,
            processed_cells_count: 0,
            saved_cells: Vec::new(),
            last_cell_count_change: now,
            phase: Phase::Running,
        };
        assert(cells_of(generator.saved_cells@, grid_size) =~= Seq::<Cell>::empty());
        (generator, seeds)
    }

    /// Whether the coordinator can take `record` in.
    pub fn is_acceptable(&self, record: SampledCell) -> (b: bool)
        requires
            self.wf(),
        ensures
            b == self.accepts(record),
    {
        if self.grid_size == 0 || self.grid_size > i32::MAX as usize {
            return false;
        }
        if record.cell_index as usize / self.grid_size > i32::MAX as usize {
            return false;
        }
        let cell = record.get_cell(self.grid_size);
        i32::MIN + 2 <= cell.x && cell.x <= i32::MAX - 2 && i32::MIN + 2 <= cell.y && cell.y
            <= i32::MAX - 2 && self.inside_cells.is_covered(cell)
    }

    /// Whether no neighbour of `cell` is known yet. The answer is for the
    /// grid as it stands: it is asked for the neighbours of an accepted
    /// cell before that cell itself is inserted, since afterwards each of
    /// them has a known neighbour.
    pub fn chech_if_neighbor_is_new(&self, cell: Cell) -> (b: bool)
        requires
            self.wf(),
            cell.has_neighbors(),
        ensures
            b == is_new(self.known(), cell),
    {
        let neighbors = cell.get_neighbors();
        let mut k: usize = 0;
        while k < 4
            invariant
                self.wf(),
                k <= 4,
                neighbors@ == cell.spec_neighbors(),
                forall|j: int| 0 <= j < k ==> !self.known().contains(#[trigger] neighbors@[j]),
            decreases 4 - k,
        {
            if self.inside_cells.is_activ(neighbors[k]) {
                return false;
            }
            k = k + 1;
        }
        true
    }

    /// Takes in the record of an accepted cell: hands out its unexplored
    /// neighbours, and then makes the cell known and saves the record.
    pub fn add_inside_cell(&mut self, save_cell: SampledCell) -> (dispatched: Vec<Cell>)
        requires
            old(self).wf(),
            old(self).accepts(save_cell),
            old(self).spec_processed_cells_count() + 4 <= usize::MAX,
        ensures
            final(self).wf(),
            dispatched@ == expansion(
                old(self).known(),
                save_cell.spec_cell(old(self).spec_grid_size()),
            ),
            final(self).known() == old(self).known().insert(
                save_cell.spec_cell(old(self).spec_grid_size()),
            ),
            final(self).spec_saved_cells() == old(self).spec_saved_cells().push(save_cell),
            final(self).spec_processed_cells_count() == old(self).spec_processed_cells_count()
                + dispatched@.len(),
            final(self).spec_grid_size() == old(self).spec_grid_size(),
            final(self).spec_phase() == old(self).spec_phase(),
            final(self).spec_last_cell_count_change() == old(self).spec_last_cell_count_change(),
    {
        let cell = save_cell.get_cell(self.grid_size);
        let neighbors = cell.get_neighbors();
        let mut dispatched: Vec<Cell> = Vec::new();
        let mut k: usize = 0;
        while k < 4
            invariant
                self.wf(),
                k <= 4,
                self.known() == old(self).known(),
                self.spec_saved_cells() == old(self).spec_saved_cells(),
                self.spec_grid_size() == old(self).spec_grid_size(),
                self.spec_phase() == old(self).spec_phase(),
                self.spec_last_cell_count_change() == old(self).spec_last_cell_count_change(),
                self.accepts(save_cell),
                cell == save_cell.spec_cell(self.spec_grid_size()),
                neighbors@ == cell.spec_neighbors(),
                dispatched@ == expansion_upto(self.known(), cell, k as int),
                dispatched@.len() <= k,
                self.spec_processed_cells_count() == old(self).spec_processed_cells_count()
                    + dispatched@.len(),
                old(self).spec_processed_cells_count() + 4 <= usize::MAX,
            decreases 4 - k,
        {
            let neighbor = neighbors[k];
            if !self.inside_cells.is_activ(neighbor) && self.chech_if_neighbor_is_new(neighbor) {
                self.processed_cells_count = self.processed_cells_count + 1;
                dispatched.push(neighbor);
            }
            k = k + 1;
        }
        let ghost before = *self;
        self.inside_cells.insert(cell);
        self.saved_cells.push(save_cell);
        proof {
            let old_cells = cells_of(before.saved_cells@, self.grid_size);
            let new_cells = cells_of(self.saved_cells@, self.grid_size);
            assert(new_cells =~= old_cells.push(cell));
            assert forall|other: Cell| self.inside_cells@.contains(other) <==> new_cells.contains(
                other,
            ) by {
                if new_cells.contains(other) {
                    let i = choose|i: int| 0 <= i < new_cells.len() && new_cells[i] == other;
                    if i < old_cells.len() {
                        assert(old_cells[i] == other);
                    }
                }
                if old_cells.contains(other) {
                    let i = choose|i: int| 0 <= i < old_cells.len() && old_cells[i] == other;
                    assert(new_cells[i] == other);
                }
                if other == cell {
                    assert(new_cells[old_cells.len() as int] == cell);
                }
            }
        }
        dispatched
    }

    /// One pass of the coordinator at time `now`: takes in the records that
    /// came back since the last pass, one after the other, and returns the
    /// cells to hand out. A pass that hands out a cell restarts the time of
    /// quiet; a pass that hands out none after more than
    /// `QUIESCENCE_MILLIS` of quiet ends the run.
    pub fn sample_neighbors(&mut self, results: &Vec<SampledCell>, now: u64) -> (dispatched: Vec<
        Cell,
    >)
        requires
            old(self).wf(),
            forall|k: int| 0 <= k < results@.len() ==> old(self).accepts(#[trigger] results@[k]),
            old(self).spec_processed_cells_count() + 4 * results@.len() <= usize::MAX,
        ensures
            final(self).wf(),
            final(self).spec_grid_size() == old(self).spec_grid_size(),
            dispatched@ == dispatched_after(
                old(self).known(),
                cells_of(results@, old(self).spec_grid_size()),
            ),
            final(self).known() == known_after(
                old(self).known(),
                cells_of(results@, old(self).spec_grid_size()),
            ),
            final(self).spec_saved_cells() == old(self).spec_saved_cells() + results@,
            final(self).spec_processed_cells_count() == old(self).spec_processed_cells_count()
                + dispatched@.len(),
            final(self).spec_phase() == next_phase(
                old(self).spec_phase(),
                dispatched@.len() > 0,
                now - old(self).spec_last_cell_count_change() > QUIESCENCE_MILLIS,
            ),
            final(self).spec_last_cell_count_change() == if dispatched@.len() > 0 {
                now
            } else {
                old(self).spec_last_cell_count_change()
            },
    {
        let mut dispatched: Vec<Cell> = Vec::new();
        let ghost cells = cells_of(results@, self.grid_size);
        let mut k: usize = 0;
        while k < results.len()
            invariant
                self.wf(),
                k <= results@.len(),
                cells == cells_of(results@, self.spec_grid_size()),
                self.spec_grid_size() == old(self).spec_grid_size(),
                self.spec_phase() == old(self).spec_phase(),
                self.spec_last_cell_count_change() == old(self).spec_last_cell_count_change(),
                forall|j: int| 0 <= j < results@.len() ==> self.accepts(#[trigger] results@[j]),
                dispatched@ == dispatched_after(old(self).known(), cells.take(k as int)),
                dispatched@.len() <= 4 * k,
                self.known() == known_after(old(self).known(), cells.take(k as int)),
                self.spec_saved_cells() == old(self).spec_saved_cells() + results@.take(k as int),
                self.spec_processed_cells_count() == old(self).spec_processed_cells_count()
                    + dispatched@.len(),
                old(self).spec_processed_cells_count() + 4 * results@.len() <= usize::MAX,
            decreases results@.len() - k,
        {
            let ghost known = self.known();
            let mut expansion = self.add_inside_cell(results[k]);
            proof {
                lemma_expansion_len(known, cells[k as int], 4);
                assert(cells.take(k + 1).drop_last() =~= cells.take(k as int));
                assert(cells.take(k + 1).last() == cells[k as int]);
                assert(results@.take(k + 1) =~= results@.take(k as int).push(results@[k as int]));
            }
            dispatched.append(&mut expansion);
            k = k + 1;
        }
        proof {
            assert(cells.take(k as int) =~= cells);
            assert(results@.take(k as int) =~= results@);
        }
        let changed = dispatched.len() > 0;
        let timed_out = now > self.last_cell_count_change && now - self.last_cell_count_change
            > QUIESCENCE_MILLIS;
        if changed {
            self.last_cell_count_change = now;
        }
        self.phase =
        match self.phase {
            Phase::Finished => Phase::Finished,
            _ => if changed {
                Phase::Running
            } else if timed_out {
                Phase::Finished
            } else {
                Phase::Quiescent
            },
        };
        dispatched
    }

    pub fn is_finished(&self) -> (b: bool)
        ensures
            b == (self.spec_phase() == Phase::Finished),
    {
        self.phase == Phase::Finished
    }

    /// The phase of the run.
    pub fn get_phase(&self) -> (phase: Phase)
        ensures
            phase == self.spec_phase(),
    {
        self.phase
    }

    /// The result of a finished run: the saved records, deepest first.
    /// Which of two records of the same depth comes first is left open.
    pub fn to_complet_sampled_cells(&self) -> (result: SampleCells)
        requires
            self.wf(),
            self.spec_phase() == Phase::Finished,
        ensures
            result.size == self.spec_grid_size(),
            result.cells@.to_multiset() == self.spec_saved_cells().to_multiset(),
            forall|i: int, j: int|
                0 <= i < j < result.cells@.len() ==> result.cells@[i].highest_iteration
                    >= result.cells@[j].highest_iteration,
            result.decodable(),
    {
        let mut depths: Vec<u16> = Vec::new();
        let mut k: usize = 0;
        while k < self.saved_cells.len()
            invariant
                k <= self.saved_cells@.len(),
                depths@.len() == k,
                forall|i: int|
                    0 <= i < k ==> depths@[i] == (#[trigger] self.saved_cells@[i]).highest_iteration,
            decreases self.saved_cells@.len() - k,
        {
            depths.push(self.saved_cells[k].get_highest_iteration());
            k = k + 1;
        }
        let order = order_by_key(&depths);
        let len: usize = order.len();
        let mut sorted: Vec<SampledCell> = Vec::new();
        let mut j: usize = 0;
        while j < len
            invariant
                j <= len,
                len == order@.len(),
                len == self.saved_cells@.len(),
                is_order_by_key(order@, depths@),
                sorted@.len() == j,
                forall|i: int|
                    0 <= i < j ==> #[trigger] sorted@[i] == self.saved_cells@[order@[len - 1
                        - i] as int],
            decreases len - j,
        {
            sorted.push(self.saved_cells[order[len - 1 - j]]);
            j = j + 1;
        }
        proof {
            let saved = self.saved_cells@;
            let at = |i: usize| saved[i as int];
            assert(sorted@ =~= order@.reverse().map_values(at));
            order@.lemma_reverse_to_multiset();
            lemma_reordered_to_multiset(saved, order@.reverse());
            assert forall|i: int, j: int| 0 <= i < j < sorted@.len() implies sorted@[i].highest_iteration
                >= sorted@[j].highest_iteration by {
                assert(depths@[order@[len - 1 - j] as int] <= depths@[order@[len - 1 - i] as int]);
            }
            assert forall|i: int| 0 <= i < sorted@.len() implies (#[trigger] sorted@[i]).decodable(
                self.grid_size,
            ) by {
                assert(self.accepts(saved[order@[len - 1 - i] as int]));
            }
        }
        SampleCells::new(sorted, self.grid_size)
    }

    /// The grid of the accepted cells.
    pub fn get_inside_cells(&self) -> (grid: &Grid)
        requires
            self.wf(),
        ensures
            grid.wf(),
            grid@ == self.known(),
            grid.spec_grid_size() == self.spec_grid_size(),
    {
        &self.inside_cells
    }

    pub fn get_grid_size(&self) -> (grid_size: usize)
        ensures
            grid_size == self.spec_grid_size(),
    {
        self.grid_size
    }

    pub fn get_processed_cells_count(&self) -> (count: usize)
        ensures
            count == self.spec_processed_cells_count(),
    {
        self.processed_cells_count
    }
}

/// A run that is finished stays finished, whatever comes in; and a run that
/// is not finished ends with the first pass that hands out nothing after
/// the time of quiet has run out, and with no other pass.
pub proof fn lemma_phase_ends(phase: Phase, changed: bool, timed_out: bool)
    ensures
        next_phase(Phase::Finished, changed, timed_out) == Phase::Finished,
        phase != Phase::Finished ==> (next_phase(phase, changed, timed_out) == Phase::Finished
            <==> !changed && timed_out),
        next_phase(phase, changed, timed_out) == Phase::Running <==> phase != Phase::Finished
            && changed,
{
}

/// At most `n` cells are handed out for the first `n` neighbours.
pub proof fn lemma_expansion_len(known: Set<Cell>, cell: Cell, n: int)
    requires
        0 <= n,
    ensures
        expansion_upto(known, cell, n).len() <= n,
    decreases n,
{
    if n > 0 {
        lemma_expansion_len(known, cell, n - 1);
    }
}

/// A cell that is handed out for `cell` is one of its neighbours, shares a
/// side with it, and has no known neighbour.
pub proof fn lemma_expansion_members(known: Set<Cell>, cell: Cell, n: int, other: Cell)
    requires
        0 <= n <= 4,
        cell.has_neighbors(),
        expansion_upto(known, cell, n).contains(other),
    ensures
        cell.is_adjacent_to(other),
        is_unexplored(known, other),
        exists|k: int| 0 <= k < n && cell.spec_neighbors()[k] == other,
    decreases n,
{
    if n > 0 {
        let shorter = expansion_upto(known, cell, n - 1);
        let last = cell.spec_neighbors()[n - 1];
        let i = choose|i: int|
            0 <= i < expansion_upto(known, cell, n).len() && expansion_upto(known, cell, n)[i]
                == other;
        if is_unexplored(known, last) && i == shorter.len() {
            assert(other == last);
        } else {
            assert(shorter[i] == other);
            lemma_expansion_members(known, cell, n - 1, other);
        }
    }
}

/// Where the samplers answer only for cells that they were sent, the
/// discovered region hangs together: each accepted cell is a seed, or it
/// was handed out as the neighbour of a cell that was accepted before it,
/// with which it shares a side.
pub proof fn lemma_discovered_region_is_connected(seeds: Seq<Cell>, accepted: Seq<Cell>, i: int)
    requires
        0 <= i < accepted.len(),
        forall|k: int| 0 <= k < accepted.len() ==> (#[trigger] accepted[k]).has_neighbors(),
        seeds.contains(accepted[i]) || dispatched_after(
            Set::<Cell>::empty(),
            accepted.take(i),
        ).contains(accepted[i]),
    ensures
        seeds.contains(accepted[i]) || exists|j: int|
            0 <= j < i && (#[trigger] accepted[j]).is_adjacent_to(accepted[i]) && expansion(
                known_after(Set::<Cell>::empty(), accepted.take(j)),
                accepted[j],
            ).contains(accepted[i]),
{
    if !seeds.contains(accepted[i]) {
        lemma_dispatched_source(accepted, i, accepted[i]);
    }
}

/// A cell that was handed out while the first `n` cells of `accepted` were
/// accepted was handed out for one of them, with which it shares a side.
proof fn lemma_dispatched_source(accepted: Seq<Cell>, n: int, other: Cell)
    requires
        0 <= n <= accepted.len(),
        forall|k: int| 0 <= k < accepted.len() ==> (#[trigger] accepted[k]).has_neighbors(),
        dispatched_after(Set::<Cell>::empty(), accepted.take(n)).contains(other),
    ensures
        exists|j: int|
            0 <= j < n && (#[trigger] accepted[j]).is_adjacent_to(other) && expansion(
                known_after(Set::<Cell>::empty(), accepted.take(j)),
                accepted[j],
            ).contains(other),
    decreases n,
{
    let empty = Set::<Cell>::empty();
    let taken = accepted.take(n);
    if n > 0 {
        assert(taken.drop_last() =~= accepted.take(n - 1));
        assert(taken.last() == accepted[n - 1]);
        let earlier = dispatched_after(empty, accepted.take(n - 1));
        let latest = expansion(known_after(empty, accepted.take(n - 1)), accepted[n - 1]);
        let all = dispatched_after(empty, taken);
        assert(all == earlier + latest);
        let p = choose|p: int| 0 <= p < all.len() && all[p] == other;
        if p < earlier.len() {
            assert(earlier[p] == other);
            lemma_dispatched_source(accepted, n - 1, other);
        } else {
            assert(latest[p - earlier.len()] == other);
            lemma_expansion_members(
                known_after(empty, accepted.take(n - 1)),
                accepted[n - 1],
                4,
                other,
            );
            assert(accepted[n - 1].is_adjacent_to(other));
        }
    }
}

} // verus!
