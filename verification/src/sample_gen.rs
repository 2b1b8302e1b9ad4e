//! The generator of candidate samples: it walks through the discovered
//! cells again and again, each round at another place inside the cells.
//!
//! The place is given by a position in a sub-grid of each cell. The order
//! in which the positions are visited comes from the brightness of the
//! pixels of a texture of low discrepancy, so that the candidates do not
//! cluster.

use crate::cell::Cell;
use crate::sorting::{is_order_by_key, order_by_key};
use vstd::prelude::*;

verus! {

/// The steps of the generator that make one batch.
pub const BATCH_STEPS: usize = 512;

/// The side of the sub-grid of a cell.
pub const INDEX_GRID_SIZE: usize = 256;

/// A candidate: the cell it lies in, and the position of its place in the
/// sub-grid of the cell.
#[derive(Debug, Clone, Copy, PartialEq, Eq, Structural)]
pub struct Candidate {
    pub cell: Cell,
    pub index: usize,
}

/// The cursor into the cells after `steps` steps that start with the cursor
/// at `cell_cursor`: it moves through the `cells` cells and, one step after
/// the last cell, starts over.
pub open spec fn cell_cursor_after(cells: nat, cell_cursor: nat, steps: nat) -> nat
    decreases steps,
{
    if steps == 0 {
        cell_cursor
    } else {
        let before = cell_cursor_after(cells, cell_cursor, (steps - 1) as nat);
        if before < cells {
            before + 1
        } else {
            0
        }
    }
}

/// The cursor into the order of the positions after `steps` steps: it moves
/// on, around the `positions` positions, in each step in which the cursor
/// into the cells starts over.
pub open spec fn order_cursor_after(
    cells: nat,
    positions: nat,
    cell_cursor: nat,
    order_cursor: nat,
    steps: nat,
) -> nat
    decreases steps,
{
    if steps == 0 {
        order_cursor
    } else {
        let before = order_cursor_after(
            cells,
            positions,
            cell_cursor,
            order_cursor,
            (steps - 1) as nat,
        );
        if cell_cursor_after(cells, cell_cursor, (steps - 1) as nat) < cells {
            before
        } else if before + 1 < positions {
            before + 1
        } else {
            0
        }
    }
}

/// The candidates of `steps` steps: each step in which the cursor points at
/// a cell gives that cell with the position that is current.
pub open spec fn candidates_after(
    cells: Seq<Cell>,
    pixel_order: Seq<usize>,
    cell_cursor: nat,
    order_cursor: nat,
    steps: nat,
) -> Seq<Candidate>
    decreases steps,
{
    if steps == 0 {
        Seq::empty()
    } else {
        let before = candidates_after(
            cells,
            pixel_order,
            cell_cursor,
            order_cursor,
            (steps - 1) as nat,
        );
        let at = cell_cursor_after(cells.len(), cell_cursor, (steps - 1) as nat);
        let position = order_cursor_after(
            cells.len(),
            pixel_order.len(),
            cell_cursor,
            order_cursor,
            (steps - 1) as nat,
        );
        if at < cells.len() {
            before.push(Candidate { cell: cells[at as int], index: pixel_order[position as int] })
        } else {
            before
        }
    }
}

/// The positions of the pixels of a texture, darkest first.
pub fn pixel_order(brightness: &Vec<u16>) -> (order: Vec<usize>)
    ensures
        is_order_by_key(order@, brightness@),
{
    order_by_key(brightness)
}

/// Column and row of the position `index` in a sub-grid of side
/// `index_grid_size`.
pub fn index_2d_inside(index: usize, index_grid_size: usize) -> (r: (usize, usize))
    requires
        index_grid_size > 0,
    ensures
        r.0 == index % index_grid_size,
        r.1 == index / index_grid_size,
{
    (index % index_grid_size, index / index_grid_size)
}

/// The state of the generator.
pub struct SampleGen {
    cells: Vec<Cell>,
    grid_size: usize,
    pixel_order: Vec<usize>,
    cell_cursor: usize,
    order_cursor: usize,
}

impl SampleGen {
    pub closed spec fn spec_cells(&self) -> Seq<Cell> {
        self.cells@
    }

    pub closed spec fn spec_grid_size(&self) -> usize {
        self.grid_size
    }

    pub closed spec fn spec_pixel_order(&self) -> Seq<usize> {
        self.pixel_order@
    }

    /// The cell that comes next; past the last cell before a new round.
    pub closed spec fn spec_cell_cursor(&self) -> nat {
        self.cell_cursor as nat
    }

    /// Where in the order of the positions the generator stands.
    pub closed spec fn spec_order_cursor(&self) -> nat {
        self.order_cursor as nat
    }

    /// The cursors point into their lists.
    pub open spec fn wf(&self) -> bool {
        &&& self.spec_cell_cursor() <= self.spec_cells().len()
        &&& self.spec_order_cursor() < self.spec_pixel_order().len()
    }

    /// A generator at the first cell and the first position of the order.
    pub fn start(cells: Vec<Cell>, grid_size: usize, pixel_order: Vec<usize>) -> (r: Self)
        requires
            pixel_order@.len() > 0,
        ensures
            r.wf(),
            r.spec_cells() == cells@,
            r.spec_grid_size() == grid_size,
            r.spec_pixel_order() == pixel_order@,
            r.spec_cell_cursor() == 0,
            r.spec_order_cursor() == 0,
    {
        Self { cells, grid_size, pixel_order, cell_cursor: 0, order_cursor: 0 }
    }

    pub fn get_grid_size(&self) -> (grid_size: usize)
        ensures
            grid_size == self.spec_grid_size(),
    {
        self.grid_size
    }

    /// The candidates of the next batch of `BATCH_STEPS` steps.
    pub fn work(&mut self) -> (samples: Vec<Candidate>)
        requires
            old(self).wf(),
        ensures
            final(self).wf(),
            final(self).spec_cells() == old(self).spec_cells(),
            final(self).spec_grid_size() == old(self).spec_grid_size(),
            final(self).spec_pixel_order() == old(self).spec_pixel_order(),
            samples@ == candidates_after(
                old(self).spec_cells(),
                old(self).spec_pixel_order(),
                old(self).spec_cell_cursor(),
                old(self).spec_order_cursor(),
                BATCH_STEPS as nat,
            ),
            final(self).spec_cell_cursor() == cell_cursor_after(
                old(self).spec_cells().len(),
                old(self).spec_cell_cursor(),
                BATCH_STEPS as nat,
            ),
            final(self).spec_order_cursor() == order_cursor_after(
                old(self).spec_cells().len(),
                old(self).spec_pixel_order().len(),
                old(self).spec_cell_cursor(),
                old(self).spec_order_cursor(),
                BATCH_STEPS as nat,
            ),
    {
        let mut samples: Vec<Candidate> = Vec::new();
        let mut step: usize = 0;
        while step < BATCH_STEPS
            invariant
                step <= BATCH_STEPS,
                self.wf(),
                self.cells@ == old(self).cells@,
                self.grid_size == old(self).grid_size,
                self.pixel_order@ == old(self).pixel_order@,
                self.cell_cursor == cell_cursor_after(
                    self.cells@.len(),
                    old(self).cell_cursor as nat,
                    step as nat,
                ),
                self.order_cursor == order_cursor_after(
                    self.cells@.len(),
                    self.pixel_order@.len(),
                    old(self).cell_cursor as nat,
                    old(self).order_cursor as nat,
                    step as nat,
                ),
                samples@ == candidates_after(
                    self.cells@,
                    self.pixel_order@,
                    old(self).cell_cursor as nat,
                    old(self).order_cursor as nat,
                    step as nat,
                ),
            decreases BATCH_STEPS - step,
        {
            if self.cell_cursor < self.cells.len() {
                samples.push(
                    Candidate {
                        cell: self.cells[self.cell_cursor],
                        index: self.pixel_order[self.order_cursor],
                    },
                );
                self.cell_cursor = self.cell_cursor + 1;
            } else {
                let positions: usize = self.pixel_order.len();
                self.order_cursor = if self.order_cursor + 1 < positions {
                    self.order_cursor + 1
                } else {
                    0
                };
                self.cell_cursor = 0;
            }
            step = step + 1;
        }
        samples
    }
}

} // verus!
