//! The cells that sampling draws its candidates from.

use crate::cell::Cell;
use vstd::prelude::*;

verus! {

/// The decimal digit for `d`.
pub open spec fn digit(d: nat) -> char {
    (48 + d) as char
}

/// `n` in decimal digits, without leading zeros.
pub open spec fn decimal(n: nat) -> Seq<char>
    decreases n,
{
    if n < 10 {
        seq![digit(n)]
    } else {
        decimal(n / 10).push(digit(n % 10))
    }
}

/// The file name for the settings of a run: the three numbers in decimal,
/// each behind its label.
pub open spec fn file_name(grid_size: usize, limit: usize, samples_per_cell: usize) -> Seq<char> {
    "./gridsize: "@ + decimal(grid_size as nat) + ", limit: "@ + decimal(limit as nat)
        + ", samples_per_cells: "@ + decimal(samples_per_cell as nat) + ".cells"@
}

/// `format!` of std with the three numbers in their default form, which for
/// an unsigned integer is its decimal digits without sign, padding or
/// leading zeros; the labels between them are copied as they stand.
#[verifier::external_body]
fn format_file_name(grid_size: usize, limit: usize, samples_per_cell: usize) -> (name: String)
    ensures
        name@ == file_name(grid_size, limit, samples_per_cell),
{
    format!(
        "./gridsize: {}, limit: {}, samples_per_cells: {}.cells",
        grid_size, limit, samples_per_cell,
    )
}

/// The cells that discovery found worth sampling, on a grid of `gridsize`
/// columns.
pub struct CovarageGrid {
    cells: Vec<Cell>,
    gridsize: usize,
}

impl CovarageGrid {
    /// The cells, in the order in which they were handed over.
    pub closed spec fn spec_cells(&self) -> Seq<Cell> {
        self.cells@
    }

    /// The number of columns of the grid.
    pub closed spec fn spec_grid_size(&self) -> usize {
        self.gridsize
    }

    pub fn new(size: usize, cells: Vec<Cell>) -> (grid: Self)
        ensures
            grid.spec_cells() == cells@,
            grid.spec_grid_size() == size,
    {
        Self { cells, gridsize: size }
    }

    /// The name of the file that keeps the result of a discovery run with
    /// these settings.
    pub fn get_file_name(grid_size: usize, limit: usize, samples_per_cell: usize) -> (name: String)
        ensures
            name@ == file_name(grid_size, limit, samples_per_cell),
    {
        format_file_name(grid_size, limit, samples_per_cell)
    }

    pub fn get_cells(&self) -> (cells: &Vec<Cell>)
        ensures
            cells@ == self.spec_cells(),
    {
        &self.cells
    }

    pub fn get_grid_size(&self) -> (grid_size: usize)
        ensures
            grid_size == self.spec_grid_size(),
    {
        self.gridsize
    }
}

} // verus!
