//! Cells of the coverage grid: integer lattice points, and the packed index
//! under which a cell is stored.

use vstd::arithmetic::div_mod::lemma_fundamental_div_mod_converse;
use vstd::prelude::*;

verus! {

/// A cell of the lattice, named by the integer coordinates of its corner.
///
/// With `grid_size` cells along the width of the domain, the cell `(x, y)`
/// stands for the square of side `domain_width / grid_size` whose corner is
/// `x` sides right of the origin and `y` sides above it.
#[derive(PartialEq, Eq, Hash, Clone, Copy, Debug, Structural)]
pub struct Cell {
    pub x: i32,
    pub y: i32,
}

impl Cell {
    /// The column of the cell in a grid of `grid_size` columns around the
    /// origin; column 0 is left free.
    pub open spec fn spec_column(self, grid_size: usize) -> int {
        self.x + (grid_size / 2) as int + 1
    }

    /// The row of the cell in a grid whose rows start `grid_size / 2` below
    /// the origin.
    pub open spec fn spec_row(self, grid_size: usize) -> int {
        self.y + (grid_size / 2) as int
    }

    /// Column and row are not negative and fit the machine's integers.
    pub open spec fn has_index_2d(self, grid_size: usize) -> bool {
        &&& grid_size / 2 <= i32::MAX
        &&& 0 <= self.spec_column(grid_size) <= i32::MAX
        &&& 0 <= self.spec_row(grid_size) <= i32::MAX
    }

    /// The packed index of the cell: its row times the width of the grid,
    /// plus its column.
    pub open spec fn spec_index(self, grid_size: usize) -> int {
        self.spec_row(grid_size) * grid_size + self.spec_column(grid_size)
    }

    /// The cell at column `x` and row `y`.
    pub open spec fn spec_from_index_2d(x: int, y: int, grid_size: usize) -> Cell {
        Cell { x: (x - 1 - grid_size as int / 2) as i32, y: (y - grid_size as int / 2) as i32 }
    }

    /// The cell with the packed index `index`.
    pub open spec fn spec_from_index(index: int, grid_size: usize) -> Cell {
        Self::spec_from_index_2d(index % (grid_size as int), index / (grid_size as int), grid_size)
    }

    /// The four cells that share a side with this one: right, above, left,
    /// below.
    pub open spec fn spec_neighbors(self) -> Seq<Cell> {
        seq![
            Cell { x: (self.x + 1) as i32, y: self.y },
            Cell { x: self.x, y: (self.y + 1) as i32 },
            Cell { x: (self.x - 1) as i32, y: self.y },
            Cell { x: self.x, y: (self.y - 1) as i32 },
        ]
    }

    /// The cell has all four neighbours: none of them leaves the range of
    /// the coordinates.
    pub open spec fn has_neighbors(self) -> bool {
        &&& i32::MIN < self.x < i32::MAX
        &&& i32::MIN < self.y < i32::MAX
    }

    /// `self` and `other` share a side.
    pub open spec fn is_adjacent_to(self, other: Cell) -> bool {
        ||| (self.y == other.y && (self.x - other.x == 1 || other.x - self.x == 1))
        ||| (self.x == other.x && (self.y - other.y == 1 || other.y - self.y == 1))
    }

    pub fn new(x: i32, y: i32) -> (cell: Self)
        ensures
            cell == (Cell { x, y }),
    {
        Self { x, y }
    }

    /// The cell at the origin, which stands in where no cell is known yet.
    pub fn dummy() -> (cell: Self)
        ensures
            cell == (Cell { x: 0, y: 0 }),
    {
        Self { x: 0, y: 0 }
    }

    pub fn get_neighbors(&self) -> (neighbors: Vec<Self>)
        requires
            self.has_neighbors(),
        ensures
            neighbors@ == self.spec_neighbors(),
            forall|k: int| 0 <= k < 4 ==> self.is_adjacent_to(#[trigger] neighbors@[k]),
    {
        let mut neighbors: Vec<Self> = Vec::new();
        neighbors.push(Self::new(self.x + 1, self.y));
        neighbors.push(Self::new(self.x, self.y + 1));
        neighbors.push(Self::new(self.x - 1, self.y));
        neighbors.push(Self::new(self.x, self.y - 1));
        assert(neighbors@ =~= self.spec_neighbors());
        neighbors
    }

    pub fn from_index(index: usize, grid_size: usize) -> (cell: Self)
        requires
            0 < grid_size <= i32::MAX,
            index / grid_size <= i32::MAX,
        ensures
            cell == Self::spec_from_index(index as int, grid_size),
    {
        let x: usize = index % grid_size;
        let y: usize = index / grid_size;
        Self::from_index_2d(x, y, grid_size)
    }

    pub fn from_index_2d(x: usize, y: usize, grid_size: usize) -> (cell: Self)
        requires
            grid_size <= i32::MAX,
            x <= i32::MAX,
            y <= i32::MAX,
        ensures
            cell == Self::spec_from_index_2d(x as int, y as int, grid_size),
            cell.x == x - 1 - grid_size / 2,
            cell.y == y - grid_size / 2,
    {
        let offset: i32 = grid_size as i32 / 2;
        Self { x: x as i32 - 1 - offset, y: y as i32 - offset }
    }

    pub fn index(&self, grid_size: usize) -> (index: usize)
        requires
            self.has_index_2d(grid_size),
            self.spec_index(grid_size) <= usize::MAX,
        ensures
            index == self.spec_index(grid_size),
    {
        let (x, y) = self.index_2d(grid_size);
        assert(y * grid_size + x == self.spec_index(grid_size));
        assert(0 <= y * grid_size) by (nonlinear_arith)
            requires
                0 <= y,
                0 <= grid_size,
        ;
        (y * grid_size) + x
    }

    /// Column and row of the cell.
    pub fn index_2d(&self, grid_size: usize) -> (index: (usize, usize))
        requires
            self.has_index_2d(grid_size),
        ensures
            index.0 == self.spec_column(grid_size),
            index.1 == self.spec_row(grid_size),
    {
        let offset: i32 = (grid_size / 2) as i32;
        let column: i32 = self.x + offset + 1;
        let row: i32 = self.y + offset;
        (column as usize, row as usize)
    }

    /// The cell lies below the real axis.
    pub fn is_y_negativ(&self) -> (b: bool)
        ensures
            b == (self.y < 0),
    {
        self.y < 0
    }
}

/// A cell whose column lies inside the grid is found again from its packed
/// index.
pub proof fn lemma_index_round_trip(cell: Cell, grid_size: usize)
    requires
        cell.has_index_2d(grid_size),
        cell.spec_column(grid_size) < grid_size,
    ensures
        Cell::spec_from_index(cell.spec_index(grid_size), grid_size) == cell,
{
    let column = cell.spec_column(grid_size);
    let row = cell.spec_row(grid_size);
    let index = cell.spec_index(grid_size);
    assert(index == row * grid_size + column);
    assert(index == grid_size * row + column) by (nonlinear_arith)
        requires
            index == row * grid_size + column,
    ;
    lemma_fundamental_div_mod_converse(index, grid_size as int, row, column);
    assert(grid_size as int / 2 == (grid_size / 2) as int);
}

/// A packed index whose column is not 0 belongs to the cell that it was
/// taken from: `index` of `from_index` is the index again.
pub proof fn lemma_from_index_round_trip(index: usize, grid_size: usize)
    requires
        0 < grid_size <= i32::MAX,
        index / grid_size <= i32::MAX,
    ensures
        Cell::spec_from_index(index as int, grid_size).spec_index(grid_size) == index,
        Cell::spec_from_index(index as int, grid_size).has_index_2d(grid_size),
        Cell::spec_from_index(index as int, grid_size).spec_column(grid_size) < grid_size,
{
    let cell = Cell::spec_from_index(index as int, grid_size);
    let x = index as int % (grid_size as int);
    let y = index as int / (grid_size as int);
    assert(grid_size as int / 2 == (grid_size / 2) as int);
    assert(0 <= x < grid_size);
    assert(cell.spec_column(grid_size) == x);
    assert(cell.spec_row(grid_size) == y);
    vstd::arithmetic::div_mod::lemma_fundamental_div_mod(index as int, grid_size as int);
    assert(y * grid_size == grid_size * y) by (nonlinear_arith);
}

} // verus!
