//! The set of cells that are known, held column by column.

use crate::cell::Cell;
use crate::range_encoder::{lemma_ranges_view_len, ranges_count, RangeEncoder};
use vstd::prelude::*;

verus! {

/// A set of cells in a window of `grid_size` columns around the origin, each
/// column an interval set of its rows.
///
/// Column 0 holds the cells with `x == -(grid_size / 2)`, row 0 the cells
/// with `y == -(grid_size / 2)`; the rows are not bounded above.
#[derive(Clone, Debug)]
pub struct Grid {
    collums: Vec<RangeEncoder>,
    grid_size: usize,
}

impl Grid {
    /// The number of columns.
    pub closed spec fn spec_grid_size(&self) -> usize {
        self.grid_size
    }

    /// The rows that are active in column `column`.
    pub closed spec fn column_view(&self, column: int) -> Set<int> {
        self.collums@[column]@
    }

    /// The sum of the counts of the first `columns` columns.
    pub closed spec fn count_upto(&self, columns: int) -> nat
        decreases columns,
    {
        if columns <= 0 {
            0
        } else {
            self.count_upto(columns - 1) + self.collums@[columns - 1].count()
        }
    }

    /// The number of active cells: the counts of all columns, added up.
    pub open spec fn count(&self) -> nat {
        self.count_upto(self.spec_grid_size() as int)
    }

    /// There is one column for each `x` of the window, each column is a
    /// well-formed interval set, and each active row is the row of a cell.
    pub closed spec fn wf(&self) -> bool {
        &&& self.collums@.len() == self.grid_size
        &&& forall|c: int| 0 <= c < self.collums@.len() ==> (#[trigger] self.collums@[c]).wf()
        &&& forall|c: int, row: int|
            0 <= c < self.collums@.len() && #[trigger] self.collums@[c]@.contains(row)
                ==> self.is_position_of_cell(c, row)
    }

    /// Some cell has column `column` and row `row`: its coordinates fit their
    /// type.
    pub closed spec fn is_position_of_cell(&self, column: int, row: int) -> bool {
        &&& i32::MIN <= column - (self.grid_size / 2) as int <= i32::MAX
        &&& i32::MIN <= row - (self.grid_size / 2) as int <= i32::MAX
    }

    /// The column in which `cell` is stored.
    pub open spec fn spec_column(&self, cell: Cell) -> int {
        cell.x + (self.spec_grid_size() / 2) as int
    }

    /// The row of `cell` in its column.
    pub open spec fn spec_row(&self, cell: Cell) -> int {
        cell.y + (self.spec_grid_size() / 2) as int
    }

    /// `cell` lies in the window of the grid.
    pub open spec fn covers(&self, cell: Cell) -> bool {
        &&& 0 <= self.spec_column(cell) < self.spec_grid_size()
        &&& 0 <= self.spec_row(cell)
    }

    /// The cells that are active.
    pub open spec fn view(&self) -> Set<Cell> {
        Set::new(
            |cell: Cell|
                self.covers(cell) && self.column_view(self.spec_column(cell)).contains(
                    self.spec_row(cell),
                ),
        )
    }

    pub fn new(grid_size: usize) -> (grid: Self)
        ensures
            grid.wf(),
            grid.spec_grid_size() == grid_size,
            grid@ == Set::<Cell>::empty(),
            grid.count() == 0,
    {
        let mut collums: Vec<RangeEncoder> = Vec::new();
        let mut k: usize = 0;
        while k < grid_size
            invariant
                k <= grid_size,
                collums@.len() == k,
                forall|c: int|
                    0 <= c < k ==> (#[trigger] collums@[c]).wf() && collums@[c]@
                        == Set::<int>::empty() && collums@[c].ranges().len() == 0,
            decreases grid_size - k,
        {
            collums.push(RangeEncoder::new());
            k = k + 1;
        }
        let grid = Self { collums, grid_size };
        assert(grid@ =~= Set::<Cell>::empty());
        proof {
            grid.lemma_count_of_empty(grid_size as int);
        }
        grid
    }

    /// Columns without intervals count nothing.
    proof fn lemma_count_of_empty(&self, columns: int)
        requires
            0 <= columns <= self.collums@.len(),
            forall|c: int| 0 <= c < columns ==> (#[trigger] self.collums@[c]).ranges().len() == 0,
        ensures
            self.count_upto(columns) == 0,
        decreases columns,
    {
        if columns > 0 {
            self.lemma_count_of_empty(columns - 1);
            assert(self.collums@[columns - 1].ranges().len() == 0);
        }
    }

    /// Whether `cell` lies in the window of the grid.
    pub fn is_covered(&self, cell: Cell) -> (b: bool)
        ensures
            b == self.covers(cell),
    {
        self.position(cell).is_some()
    }

    /// Column and row of `cell`, where it lies in the window.
    fn position(&self, cell: Cell) -> (r: Option<(usize, usize)>)
        ensures
            r is Some <==> self.covers(cell),
            r matches Some(p) ==> p.0 == self.spec_column(cell) && p.1 == self.spec_row(cell),
    {
        let half: usize = self.grid_size / 2;
        let column: i128 = cell.x as i128 + half as i128;
        let row: i128 = cell.y as i128 + half as i128;
        if 0 <= column && column < self.grid_size as i128 && 0 <= row {
            Some((column as usize, row as usize))
        } else {
            None
        }
    }

    /// Makes `cell` active.
    pub fn insert(&mut self, cell: Cell)
        requires
            old(self).wf(),
            old(self).covers(cell),
        ensures
            final(self).wf(),
            final(self).spec_grid_size() == old(self).spec_grid_size(),
            final(self)@ == old(self)@.insert(cell),
    {
        let (x, y) = self.position(cell).unwrap();
        let ghost before = *self;
        self.collums[x].insert_index(y);
        proof {
            assert forall|c: int| 0 <= c < self.collums@.len() implies (
            #[trigger] self.collums@[c]).wf() by {
                if c != x {
                    assert(self.collums@[c] == before.collums@[c]);
                }
            }
            assert forall|c: int, row: int|
                0 <= c < self.collums@.len() && #[trigger] self.collums@[c]@.contains(
                    row,
                ) implies self.is_position_of_cell(c, row) by {
                if c != x {
                    assert(self.collums@[c] == before.collums@[c]);
                } else if row != y {
                    assert(before.collums@[c]@.contains(row));
                }
            }
            assert forall|other: Cell| self@.contains(other) <==> before@.insert(cell).contains(
                other,
            ) by {
                if self.covers(other) {
                    let c = self.spec_column(other);
                    if c != x {
                        assert(self.collums@[c] == before.collums@[c]);
                    }
                }
            }
            assert(self@ =~= before@.insert(cell));
        }
    }

    /// Whether `cell` is active. A cell outside the window never is.
    pub fn is_activ(&self, cell: Cell) -> (b: bool)
        requires
            self.wf(),
        ensures
            b == self@.contains(cell),
    {
        match self.position(cell) {
            Some((x, y)) => self.collums[x].is_activ(y),
            None => false,
        }
    }

    /// The number of active cells.
    pub fn activ_count(&self) -> (n: usize)
        requires
            self.wf(),
            self.count() <= usize::MAX,
        ensures
            n == self.count(),
            n == self@.len(),
    {
        proof {
            self.lemma_count_is_len();
        }
        let mut n: usize = 0;
        let mut k: usize = 0;
        while k < self.collums.len()
            invariant
                self.wf(),
                self.count() <= usize::MAX,
                k <= self.collums@.len(),
                n == self.count_upto(k as int),
            decreases self.collums@.len() - k,
        {
            proof {
                self.lemma_count_monotone(k as int + 1);
            }
            n = n + self.collums[k].activ_count();
            k = k + 1;
        }
        n
    }

    /// The active cells of the columns before `columns`.
    pub closed spec fn view_upto(&self, columns: int) -> Set<Cell> {
        Set::new(|cell: Cell| self@.contains(cell) && self.spec_column(cell) < columns)
    }

    /// The active cells of column `column`.
    pub closed spec fn column_cells(&self, column: int) -> Set<Cell> {
        Set::new(|cell: Cell| self@.contains(cell) && self.spec_column(cell) == column)
    }

    /// A column holds as many active cells as its interval set counts
    /// rows.
    proof fn lemma_column_len(&self, column: int)
        requires
            self.wf(),
            0 <= column < self.spec_grid_size(),
        ensures
            self.column_cells(column).finite(),
            self.column_cells(column).len() == self.collums@[column].count(),
    {
        let rows = self.collums@[column]@;
        lemma_ranges_view_len(self.collums@[column].ranges());
        let to_cell = |row: int| self.cell_at(column, row);
        assert(vstd::relations::injective_on(to_cell, rows)) by {
            assert forall|r1: int, r2: int|
                rows.contains(r1) && rows.contains(r2) && #[trigger] to_cell(r1) == #[trigger] to_cell(
                    r2,
                ) implies r1 == r2 by {
                assert(self.is_position_of_cell(column, r1));
                assert(self.is_position_of_cell(column, r2));
            }
        }
        assert forall|cell: Cell| rows.map(to_cell).contains(cell) <==> self.column_cells(
            column,
        ).contains(cell) by {
            if rows.map(to_cell).contains(cell) {
                let row = choose|row: int| rows.contains(row) && to_cell(row) == cell;
                assert(self.is_position_of_cell(column, row));
                assert(crate::range_encoder::ranges_contain(self.collums@[column].ranges(), row));
                assert(self.spec_column(cell) == column);
                assert(self.spec_row(cell) == row);
            }
            if self.column_cells(column).contains(cell) {
                let row = self.spec_row(cell);
                assert(rows.contains(row));
                assert(to_cell(row) == cell);
            }
        }
        assert(rows.map(to_cell) =~= self.column_cells(column));
        vstd::set_lib::lemma_map_size(rows, self.column_cells(column), to_cell);
    }

    /// The columns before `columns` hold as many active cells as their
    /// interval sets count rows.
    proof fn lemma_view_len(&self, columns: int)
        requires
            self.wf(),
            0 <= columns <= self.spec_grid_size(),
        ensures
            self.view_upto(columns).finite(),
            self.view_upto(columns).len() == self.count_upto(columns),
        decreases columns,
    {
        if columns == 0 {
            assert(self.view_upto(columns) =~= Set::<Cell>::empty());
        } else {
            self.lemma_view_len(columns - 1);
            self.lemma_column_len(columns - 1);
            let before = self.view_upto(columns - 1);
            let last = self.column_cells(columns - 1);
            assert(self.view_upto(columns) =~= before.union(last));
            assert(before.disjoint(last));
            vstd::set_lib::lemma_set_disjoint_lens(before, last);
        }
    }

    /// The count of a grid is the number of its active cells.
    pub proof fn lemma_count_is_len(&self)
        requires
            self.wf(),
        ensures
            self@.finite(),
            self@.len() == self.count(),
    {
        self.lemma_view_len(self.spec_grid_size() as int);
        assert(self@ =~= self.view_upto(self.spec_grid_size() as int));
    }

    /// The count of the first columns is no more than the count of all.
    proof fn lemma_count_monotone(&self, columns: int)
        requires
            0 <= columns <= self.collums@.len(),
            self.collums@.len() == self.grid_size,
        ensures
            self.count_upto(columns) <= self.count(),
        decreases self.collums@.len() - columns,
    {
        if columns < self.collums@.len() {
            self.lemma_count_monotone(columns + 1);
        }
    }

    /// Whether no cell is active.
    pub fn is_empty(&self) -> (b: bool)
        requires
            self.wf(),
        ensures
            b == (self@ == Set::<Cell>::empty()),
    {
        let mut k: usize = 0;
        while k < self.collums.len()
            invariant
                self.wf(),
                k <= self.collums@.len(),
                forall|c: int| 0 <= c < k ==> (#[trigger] self.collums@[c])@ == Set::<int>::empty(),
            decreases self.collums@.len() - k,
        {
            if !self.collums[k].is_empty() {
                proof {
                    let column = self.collums@[k as int];
                    assert(exists|row: int| column@.contains(row)) by {
                        if forall|r: int| !column@.contains(r) {
                            assert(column@ =~= Set::<int>::empty());
                        }
                    }
                    let row = choose|row: int| column@.contains(row);
                    assert(self.is_position_of_cell(k as int, row));
                    let cell = Cell {
                        x: (k - (self.grid_size / 2)) as i32,
                        y: (row - (self.grid_size / 2)) as i32,
                    };
                    assert(row >= 0) by {
                        assert(crate::range_encoder::ranges_contain(column.ranges(), row));
                    }
                    assert(self.covers(cell));
                    assert(self@.contains(cell));
                }
                return false;
            }
            k = k + 1;
        }
        assert(self@ =~= Set::<Cell>::empty());
        true
    }

    /// The cell at column `column` and row `row` of the window.
    pub open spec fn cell_at(&self, column: int, row: int) -> Cell {
        Cell {
            x: (column - (self.spec_grid_size() / 2) as int) as i32,
            y: (row - (self.spec_grid_size() / 2) as int) as i32,
        }
    }

    /// The active cells, column by column from left to right, and in each
    /// column from the lowest row upwards.
    pub fn iter(&self) -> (cells: Vec<Cell>)
        requires
            self.wf(),
        ensures
            forall|cell: Cell| self@.contains(cell) <==> cells@.contains(cell),
            forall|p: int, q: int|
                0 <= p < q < cells@.len() ==> cells@[p].x < cells@[q].x || (cells@[p].x
                    == cells@[q].x && cells@[p].y < cells@[q].y),
    {
        let mut cells: Vec<Cell> = Vec::new();
        let half: usize = self.grid_size / 2;
        let mut x: usize = 0;
        while x < self.collums.len()
            invariant
                self.wf(),
                half == self.grid_size / 2,
                x <= self.collums@.len(),
                forall|p: int|
                    0 <= p < cells@.len() ==> self@.contains(#[trigger] cells@[p])
                        && self.spec_column(cells@[p]) < x,
                forall|cell: Cell|
                    self@.contains(cell) && self.spec_column(cell) < x ==> cells@.contains(cell),
                forall|p: int, q: int|
                    0 <= p < q < cells@.len() ==> cells@[p].x < cells@[q].x || (cells@[p].x
                        == cells@[q].x && cells@[p].y < cells@[q].y),
            decreases self.collums@.len() - x,
        {
            let rows = self.collums[x].iter();
            let ghost before = cells@;
            let mut k: usize = 0;
            while k < rows.len()
                invariant
                    self.wf(),
                    half == self.grid_size / 2,
                    x < self.collums@.len(),
                    k <= rows@.len(),
                    forall|r: int|
                        self.collums@[x as int]@.contains(r) <==> exists|j: int|
                            0 <= j < rows@.len() && rows@[j] == r,
                    forall|i: int, j: int| 0 <= i < j < rows@.len() ==> rows@[i] < rows@[j],
                    cells@.len() == before.len() + k,
                    forall|p: int| 0 <= p < before.len() ==> cells@[p] == before[p],
                    forall|j: int|
                        0 <= j < k ==> #[trigger] cells@[before.len() + j] == self.cell_at(
                            x as int,
                            rows@[j] as int,
                        ),
                decreases rows@.len() - k,
            {
                let row: usize = rows[k];
                proof {
                    assert(self.collums@[x as int]@.contains(row as int));
                    assert(self.is_position_of_cell(x as int, row as int));
                }
                let cell = Cell::new(
                    (x as i128 - half as i128) as i32,
                    (row as i128 - half as i128) as i32,
                );
                cells.push(cell);
                k = k + 1;
            }
            proof {
                assert forall|p: int| 0 <= p < cells@.len() implies self@.contains(
                    #[trigger] cells@[p],
                ) && self.spec_column(cells@[p]) < x + 1 by {
                    if p < before.len() {
                        assert(cells@[p] == before[p]);
                    } else {
                        let j = p - before.len();
                        assert(cells@[before.len() + j] == self.cell_at(x as int, rows@[j] as int));
                        assert(self.collums@[x as int]@.contains(rows@[j] as int));
                        assert(self.is_position_of_cell(x as int, rows@[j] as int));
                        assert(crate::range_encoder::ranges_contain(
                            self.collums@[x as int].ranges(),
                            rows@[j] as int,
                        ));
                    }
                }
                assert forall|cell: Cell|
                    self@.contains(cell) && self.spec_column(cell) < x + 1 implies cells@.contains(
                    cell,
                ) by {
                    if self.spec_column(cell) < x {
                        let p = choose|p: int| 0 <= p < before.len() && before[p] == cell;
                        assert(cells@[p] == cell);
                    } else {
                        let row = self.spec_row(cell);
                        assert(self.collums@[x as int]@.contains(row));
                        let j = choose|j: int| 0 <= j < rows@.len() && rows@[j] == row;
                        assert(cells@[before.len() + j] == cell);
                    }
                }
                assert forall|p: int, q: int| 0 <= p < q < cells@.len() implies cells@[p].x
                    < cells@[q].x || (cells@[p].x == cells@[q].x && cells@[p].y < cells@[q].y) by {
                    if q < before.len() {
                        assert(cells@[p] == before[p] && cells@[q] == before[q]);
                    } else {
                        let j = q - before.len();
                        assert(cells@[before.len() + j] == self.cell_at(x as int, rows@[j] as int));
                        assert(self.collums@[x as int]@.contains(rows@[j] as int));
                        assert(self.is_position_of_cell(x as int, rows@[j] as int));
                        if p < before.len() {
                            assert(cells@[p] == before[p]);
                            assert(self.spec_column(before[p]) < x);
                        } else {
                            let i = p - before.len();
                            assert(cells@[before.len() + i] == self.cell_at(
                                x as int,
                                rows@[i] as int,
                            ));
                            assert(self.collums@[x as int]@.contains(rows@[i] as int));
                            assert(self.is_position_of_cell(x as int, rows@[i] as int));
                            assert(rows@[i] < rows@[j]);
                        }
                    }
                }
            }
            x = x + 1;
        }
        cells
    }

    /// The interval sets of the columns, from left to right.
    pub fn get_collums(&self) -> (collums: &Vec<RangeEncoder>)
        requires
            self.wf(),
        ensures
            collums@.len() == self.spec_grid_size(),
            forall|column: int|
                0 <= column < collums@.len() ==> (#[trigger] collums@[column]).wf()
                    && collums@[column]@ == self.column_view(column),
    {
        &self.collums
    }

    /// The interval set of the rows of column `index`.
    pub fn get_collum(&self, index: usize) -> (collum: &RangeEncoder)
        requires
            self.wf(),
            index < self.spec_grid_size(),
        ensures
            collum.wf(),
            collum@ == self.column_view(index as int),
            forall|row: int| collum@.contains(row) ==> 0 <= row < usize::MAX,
    {
        proof {
            let column = self.collums@[index as int];
            assert forall|row: int| column@.contains(row) implies 0 <= row < usize::MAX by {
                assert(self.is_position_of_cell(index as int, row));
                assert(crate::range_encoder::ranges_contain(column.ranges(), row));
            }
        }
        &self.collums[index]
    }

    pub fn get_grid_size(&self) -> (grid_size: usize)
        ensures
            grid_size == self.spec_grid_size(),
    {
        self.grid_size
    }
}

} // verus!
