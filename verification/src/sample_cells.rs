//! The result of discovery: the accepted cells, deepest first.

use crate::cell::Cell;
use crate::covarage_grid::CovarageGrid;
use crate::sampled_cell::SampledCell;
use rand::seq::SliceRandom;
use vstd::prelude::*;

verus! {

/// The records of a discovery run on a grid of `size` columns.
#[derive(Debug, Clone)]
pub struct SampleCells {
    pub cells: Vec<SampledCell>,
    pub size: usize,
}

/// How many records a cap of `limit` leaves of `len`: `limit`, or all of
/// them where there are fewer.
pub open spec fn capped(len: nat, limit: usize) -> nat {
    if limit < len {
        limit as nat
    } else {
        len
    }
}

/// The list is sorted by depth, deepest first.
pub open spec fn is_deepest_first(cells: Seq<SampledCell>) -> bool {
    forall|i: int, j: int|
        0 <= i < j < cells.len() ==> cells[i].highest_iteration >= cells[j].highest_iteration
}

/// On a list that is sorted deepest first a cap keeps the deepest records:
/// none that is left out is deeper than one that is kept.
pub proof fn lemma_cap_keeps_the_deepest(cells: Seq<SampledCell>, limit: usize, kept: int, left: int)
    requires
        is_deepest_first(cells),
        0 <= kept < capped(cells.len(), limit),
        capped(cells.len(), limit) <= left < cells.len(),
    ensures
        cells[kept].highest_iteration >= cells[left].highest_iteration,
{
}

impl SampleCells {
    /// Every record can be taken apart into a cell of the grid.
    pub open spec fn decodable(&self) -> bool {
        forall|k: int| 0 <= k < self.cells@.len() ==> (#[trigger] self.cells@[k]).decodable(self.size)
    }

    /// The cells of the first `limit` records, or of all where there are
    /// fewer, in the order of the list.
    pub open spec fn spec_first_cells(&self, limit: usize) -> Seq<Cell> {
        Seq::new(
            capped(self.cells@.len(), limit),
            |k: int| self.cells@[k].spec_cell(self.size),
        )
    }

    pub fn new(cells: Vec<SampledCell>, size: usize) -> (r: Self)
        ensures
            r.cells == cells,
            r.size == size,
    {
        Self { cells, size }
    }

    /// The cells of the first `limit` records, or of all where there are
    /// fewer, in the order of the list. On a list that is sorted deepest
    /// first these are the deepest cells.
    pub fn first_cells(&self, limit: usize) -> (cells: Vec<Cell>)
        requires
            self.decodable(),
        ensures
            cells@ == self.spec_first_cells(limit),
            cells@.len() == capped(self.cells@.len(), limit),
    {
        let mut cells: Vec<Cell> = Vec::new();
        let mut k: usize = 0;
        while k < self.cells.len() && k < limit
            invariant
                self.decodable(),
                k <= self.cells@.len(),
                k <= limit,
                cells@.len() == k,
                forall|j: int| 0 <= j < k ==> cells@[j] == self.cells@[j].spec_cell(self.size),
            decreases self.cells@.len() - k,
        {
            cells.push(self.cells[k].get_cell(self.size));
            k = k + 1;
        }
        assert(cells@ =~= self.spec_first_cells(limit));
        cells
    }

    /// The cells of the first `limit` records, or of all where there are
    /// fewer, in an order that chance picks.
    pub fn to_cells(&self, limit: usize) -> (cells: Vec<Cell>)
        requires
            self.decodable(),
        ensures
            cells@.to_multiset() == self.spec_first_cells(limit).to_multiset(),
            cells@.len() == capped(self.cells@.len(), limit),
    {
        let mut cells = self.first_cells(limit);
        let ghost ordered = cells@;
        shuffle(&mut cells);
        proof {
            vstd::seq_lib::to_multiset_len(ordered);
            vstd::seq_lib::to_multiset_len(cells@);
        }
        cells
    }

    /// The cells of the first `limit` records, or of all where there are
    /// fewer, in the order of the list, as the coverage of a grid of `size`
    /// columns.
    pub fn to_covarage_grid(&self, limit: usize) -> (grid: CovarageGrid)
        requires
            self.decodable(),
        ensures
            grid.spec_cells() == self.spec_first_cells(limit),
            grid.spec_grid_size() == self.size,
    {
        CovarageGrid::new(self.size, self.first_cells(limit))
    }
}

/// `rand::seq::SliceRandom::shuffle` with the generator of the calling
/// thread, `rand::thread_rng`: the cells are swapped among themselves, so
/// that afterwards each cell stands in the list as often as before. Which
/// order comes out is left open.
#[verifier::external_body]
fn shuffle(cells: &mut Vec<Cell>)
    ensures
        final(cells)@.to_multiset() == old(cells)@.to_multiset(),
{
    cells.shuffle(&mut rand::thread_rng());
}

} // verus!
