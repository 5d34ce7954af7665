//! The playing field and the indexing of its cells.

use vstd::prelude::*;
use crate::types::Coord;

verus! {

/// The largest width or height a board may have.
pub const MAX_DIM: i64 = 16384;

/// A `width` by `height` grid; cell `(x, y)` lies on it when
/// `0 <= x < width` and `0 <= y < height`.
#[derive(Debug, Clone, Copy, PartialEq, Eq, Structural, Hash)]
pub struct Board {
    pub width: i64,
    pub height: i64,
}

impl Board {
    /// The board has a usable, indexable size.
    pub open spec fn wf(self) -> bool {
        1 <= self.width <= MAX_DIM && 1 <= self.height <= MAX_DIM
    }

    pub open spec fn contains_spec(self, c: Coord) -> bool {
        0 <= c.x < self.width && 0 <= c.y < self.height
    }

    /// Number of cells of the board.
    pub open spec fn area(self) -> int {
        self.width * self.height
    }

    /// Row-major index of a cell of the board.
    pub open spec fn index_of(self, c: Coord) -> int {
        c.y * self.width + c.x
    }

    pub fn contains(&self, coord: Coord) -> (r: bool)
        ensures
            r == self.contains_spec(coord),
    {
        coord.x >= 0 && coord.y >= 0 && coord.x < self.width && coord.y < self.height
    }

    /// The row-major index of a cell of the board.
    pub fn index(&self, coord: Coord) -> (r: usize)
        requires
            self.wf(),
            self.contains_spec(coord),
        ensures
            r == self.index_of(coord),
            r < self.area(),
    {
        proof {
            self.lemma_index_in_range(coord);
        }
        (coord.y * self.width + coord.x) as usize
    }

    /// Number of cells of the board.
    pub fn cell_count(&self) -> (r: usize)
        requires
            self.wf(),
        ensures
            r == self.area(),
    {
        proof {
            self.lemma_area_bounded();
        }
        (self.width * self.height) as usize
    }

    pub proof fn lemma_area_bounded(self)
        requires
            self.wf(),
        ensures
            0 < self.area() <= MAX_DIM * MAX_DIM,
    {
        assert(0 < self.width * self.height <= MAX_DIM * MAX_DIM) by (nonlinear_arith)
            requires
                1 <= self.width <= MAX_DIM,
                1 <= self.height <= MAX_DIM,
        ;
    }

    pub broadcast proof fn lemma_index_in_range(self, c: Coord)
        requires
            self.wf(),
            self.contains_spec(c),
        ensures
            0 <= #[trigger] self.index_of(c) < self.area(),
            self.area() <= MAX_DIM * MAX_DIM,
    {
        self.lemma_area_bounded();
        assert(0 <= c.y * self.width + c.x < self.width * self.height) by (nonlinear_arith)
            requires
                0 <= c.x < self.width,
                0 <= c.y < self.height,
        ;
    }

    /// Distinct cells of the board have distinct indices.
    pub proof fn lemma_index_injective(self, a: Coord, b: Coord)
        requires
            self.wf(),
            self.contains_spec(a),
            self.contains_spec(b),
            self.index_of(a) == self.index_of(b),
        ensures
            a == b,
    {
        let w = self.width as int;
        assert(a.y == b.y) by (nonlinear_arith)
            requires
                0 <= a.x < w,
                0 <= b.x < w,
                a.y * w + a.x == b.y * w + b.x,
        ;
    }
}

} // verus!
