//! The record of one discovered cell.

use crate::cell::Cell;
use vstd::prelude::*;

verus! {

/// A cell that discovery accepted, with the deepest escape that was seen in
/// it.
#[derive(Debug, Clone, Copy, PartialEq, Eq, Structural)]
pub struct SampledCell {
    pub cell_index: u32,
    pub highest_iteration: u16,
}

impl SampledCell {
    /// The cell that the record names in a grid of `grid_size` columns.
    pub open spec fn spec_cell(self, grid_size: usize) -> Cell {
        Cell::spec_from_index(self.cell_index as int, grid_size)
    }

    /// The packed index can be taken apart into a cell of a grid of
    /// `grid_size` columns.
    pub open spec fn decodable(self, grid_size: usize) -> bool {
        &&& 0 < grid_size <= i32::MAX
        &&& self.cell_index as int / (grid_size as int) <= i32::MAX
    }

    pub fn new(cell: Cell, highest_iteration: u16, grid_size: usize) -> (record: Self)
        requires
            cell.has_index_2d(grid_size),
            cell.spec_index(grid_size) <= u32::MAX,
        ensures
            record.cell_index == cell.spec_index(grid_size),
            record.highest_iteration == highest_iteration,
    {
        SampledCell { cell_index: cell.index(grid_size) as u32, highest_iteration }
    }

    pub fn get_cell(&self, grid_size: usize) -> (cell: Cell)
        requires
            self.decodable(grid_size),
        ensures
            cell == self.spec_cell(grid_size),
    {
        Cell::from_index(self.cell_index as usize, grid_size)
    }

    pub fn get_highest_iteration(&self) -> (highest_iteration: u16)
        ensures
            highest_iteration == self.highest_iteration,
    {
        self.highest_iteration
    }
}

/// A record names the cell that it was made of, where that cell has a
/// column of the grid.
pub proof fn lemma_record_round_trip(cell: Cell, highest_iteration: u16, grid_size: usize)
    requires
        cell.has_index_2d(grid_size),
        cell.spec_column(grid_size) < grid_size,
        cell.spec_index(grid_size) <= u32::MAX,
    ensures
        (SampledCell {
            cell_index: cell.spec_index(grid_size) as u32,
            highest_iteration,
        }).spec_cell(grid_size) == cell,
{
    crate::cell::lemma_index_round_trip(cell, grid_size);
}

} // verus!
