//! Rectangles of grid cells.

use vstd::prelude::*;

verus! {

/// A rectangle of `w` by `h` cells whose first cell is `(x, y)`.
#[derive(PartialEq, Eq, Debug, Clone, Copy, Structural)]
pub struct Rect {
    x: usize,
    y: usize,
    w: usize,
    h: usize,
}

impl Rect {
    pub closed spec fn spec_x(self) -> usize {
        self.x
    }

    pub closed spec fn spec_y(self) -> usize {
        self.y
    }

    pub closed spec fn spec_w(self) -> usize {
        self.w
    }

    pub closed spec fn spec_h(self) -> usize {
        self.h
    }

    /// Neither side is 0.
    pub open spec fn wf(self) -> bool {
        self.spec_w() > 0 && self.spec_h() > 0
    }

    pub fn new(x: usize, y: usize, w: usize, h: usize) -> (rect: Self)
        requires
            w > 0,
            h > 0,
        ensures
            rect.wf(),
            rect.spec_x() == x,
            rect.spec_y() == y,
            rect.spec_w() == w,
            rect.spec_h() == h,
    {
        Self { x, y, w, h }
    }

    /// The number of cells of the rectangle.
    pub fn area(&self) -> (area: usize)
        requires
            self.spec_w() * self.spec_h() <= usize::MAX,
        ensures
            area == self.spec_w() * self.spec_h(),
    {
        self.w * self.h
    }

    /// The rectangle in units of the grid: its first cell and its two
    /// sides, from which a display computes where to draw it.
    pub fn draw(&self) -> (r: (usize, usize, usize, usize))
        ensures
            r == (self.spec_x(), self.spec_y(), self.spec_w(), self.spec_h()),
    {
        (self.x, self.y, self.w, self.h)
    }
}

} // verus!
