//! Which layers of the discovery a display shows.

use vstd::prelude::*;

verus! {

/// Four switches, one for each layer.
#[derive(Debug, Clone, Copy, PartialEq, Eq, Structural)]
pub struct DrawManager {
    draw_neighbors: bool,
    draw_new_neighbors: bool,
    draw_inside_cells: bool,
    draw_all_visited_cells: bool,
}

impl DrawManager {
    pub closed spec fn spec_draw_neighbors(self) -> bool {
        self.draw_neighbors
    }

    pub closed spec fn spec_draw_new_neighbors(self) -> bool {
        self.draw_new_neighbors
    }

    pub closed spec fn spec_draw_inside_cells(self) -> bool {
        self.draw_inside_cells
    }

    pub closed spec fn spec_draw_all_visited_cells(self) -> bool {
        self.draw_all_visited_cells
    }

    /// Only the accepted cells are shown.
    pub fn new() -> (manager: Self)
        ensures
            !manager.spec_draw_neighbors(),
            !manager.spec_draw_new_neighbors(),
            manager.spec_draw_inside_cells(),
            !manager.spec_draw_all_visited_cells(),
    {
        Self {
            draw_neighbors: false,
            draw_new_neighbors: false,
            draw_inside_cells: true,
            draw_all_visited_cells: false,
        }
    }

    /// Flips the switch of each layer whose key was pressed since the last
    /// call.
    pub fn update(
        &mut self,
        neighbors_key: bool,
        new_neighbors_key: bool,
        inside_cells_key: bool,
        all_visited_cells_key: bool,
    )
        ensures
            final(self).spec_draw_neighbors() == (old(self).spec_draw_neighbors() != neighbors_key),
            final(self).spec_draw_new_neighbors() == (old(self).spec_draw_new_neighbors()
                != new_neighbors_key),
            final(self).spec_draw_inside_cells() == (old(self).spec_draw_inside_cells()
                != inside_cells_key),
            final(self).spec_draw_all_visited_cells() == (old(self).spec_draw_all_visited_cells()
                != all_visited_cells_key),
    {
        if neighbors_key {
            self.draw_neighbors = !self.draw_neighbors;
        }
        if new_neighbors_key {
            self.draw_new_neighbors = !self.draw_new_neighbors;
        }
        if inside_cells_key {
            self.draw_inside_cells = !self.draw_inside_cells;
        }
        if all_visited_cells_key {
            self.draw_all_visited_cells = !self.draw_all_visited_cells;
        }
    }

    pub fn get_draw_neighbors(&self) -> (b: bool)
        ensures
            b == self.spec_draw_neighbors(),
    {
        self.draw_neighbors
    }

    pub fn get_draw_new_neighbors(&self) -> (b: bool)
        ensures
            b == self.spec_draw_new_neighbors(),
    {
        self.draw_new_neighbors
    }

    pub fn get_draw_inside_cells(&self) -> (b: bool)
        ensures
            b == self.spec_draw_inside_cells(),
    {
        self.draw_inside_cells
    }

    pub fn get_draw_all_visited_cells(&self) -> (b: bool)
        ensures
            b == self.spec_draw_all_visited_cells(),
    {
        self.draw_all_visited_cells
    }
}

} // verus!
