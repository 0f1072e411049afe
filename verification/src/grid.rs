//! The maze grid: a fixed-size two-dimensional collection of cells with a
//! wall-symmetry invariant.
//!
//! Carving a passage always opens the wall on both of its sides: the wall on
//! the given pole of the addressed cell and the wall on the opposite pole of
//! the neighbouring cell. The renderer relies on this symmetry: it inspects
//! only each cell's own walls, and overlapping wall spans of adjacent cells
//! must agree.

use crate::cell::Cell;
use crate::pole::Pole;
use vstd::prelude::*;

verus! {

/// The only error kind of the grid: a coordinate, or the neighbour a carve
/// points at, falls outside the grid extents.
#[derive(Clone, Copy, Debug, PartialEq, Eq, Structural)]
pub enum GridError {
    OutOfBounds,
}

/// The coordinates one step from `(x, y)` in direction `pole`.
/// North is one row up (smaller `y`), south one row down, east one column
/// right (larger `x`), west one column left.
pub open spec fn neighbor_of(x: int, y: int, pole: Pole) -> (int, int) {
    match pole {
        Pole::N => (x, y - 1),
        Pole::S => (x, y + 1),
        Pole::E => (x + 1, y),
        Pole::W => (x - 1, y),
    }
}

/// A rectangular maze grid. Cells are stored row-major in a flat vector:
/// the cell at `(x, y)` sits at index `y * width + x`.
pub struct Grid {
    pub width: usize,
    pub height: usize,
    pub cells: Vec<Cell>,
}

impl Grid {
    pub open spec fn spec_width(self) -> int {
        self.width as int
    }

    pub open spec fn spec_height(self) -> int {
        self.height as int
    }

    /// Whether `(x, y)` addresses a cell of this grid.
    pub open spec fn in_bounds(self, x: int, y: int) -> bool {
        0 <= x < self.spec_width() && 0 <= y < self.spec_height()
    }

    /// The cell at `(x, y)`.
    pub open spec fn cell_at(self, x: int, y: int) -> Cell {
        self.cells@[y * self.spec_width() + x]
    }

    /// Whether the neighbour one step from `(x, y)` in direction `pole` exists.
    pub open spec fn has_neighbor(self, x: int, y: int, pole: Pole) -> bool {
        self.in_bounds(neighbor_of(x, y, pole).0, neighbor_of(x, y, pole).1)
    }

    /// Wall symmetry at one cell: every carved wall has an existing neighbour
    /// on its other side whose facing wall is carved as well.
    pub open spec fn sym_ok_at(self, x: int, y: int) -> bool {
        &&& (self.cell_at(x, y).north ==> y >= 1 && self.cell_at(x, y - 1).south)
        &&& (self.cell_at(x, y).south ==> y + 1 < self.spec_height() && self.cell_at(
            x,
            y + 1,
        ).north)
        &&& (self.cell_at(x, y).east ==> x + 1 < self.spec_width() && self.cell_at(x + 1, y).west)
        &&& (self.cell_at(x, y).west ==> x >= 1 && self.cell_at(x - 1, y).east)
    }

    /// Well-formedness: positive extents small enough for flat indexing,
    /// a cell for every coordinate pair, and wall symmetry throughout.
    pub open spec fn wf(self) -> bool {
        &&& self.width >= 1
        &&& self.height >= 1
        &&& self.spec_width() * self.spec_height() <= usize::MAX
        &&& self.cells@.len() == self.spec_width() * self.spec_height()
        &&& forall|x: int, y: int| self.in_bounds(x, y) ==> #[trigger] self.sym_ok_at(x, y)
    }

    /// Builds a grid of the given extents with every wall closed.
    pub fn new(width: usize, height: usize) -> (g: Grid)
        requires
            width >= 1,
            height >= 1,
            width * height <= usize::MAX,
        ensures
            g.wf(),
            g.spec_width() == width,
            g.spec_height() == height,
            forall|x: int, y: int|
                g.in_bounds(x, y) ==> (#[trigger] g.cell_at(x, y)) == (Cell {
                    north: false,
                    east: false,
                    south: false,
                    west: false,
                }),
    {
        let count = width * height;
        let mut cells: Vec<Cell> = Vec::new();
        let mut i: usize = 0;
        while i < count
            invariant
                i <= count,
                cells@.len() == i,
                forall|j: int|
                    0 <= j < i ==> (#[trigger] cells@[j]) == (Cell {
                        north: false,
                        east: false,
                        south: false,
                        west: false,
                    }),
            decreases count - i,
        {
            cells.push(Cell::closed());
            i = i + 1;
        }
        let g = Grid { width, height, cells };
        proof {
            assert forall|x: int, y: int| g.in_bounds(x, y) implies (#[trigger] g.cell_at(x, y))
                == (Cell { north: false, east: false, south: false, west: false }) by {
                lemma_row_major_bounds(width as int, height as int, x, y);
            }
            assert forall|x: int, y: int| g.in_bounds(x, y) implies #[trigger] g.sym_ok_at(
                x,
                y,
            ) by {
                lemma_row_major_bounds(width as int, height as int, x, y);
            }
        }
        g
    }

    /// The number of columns.
    pub fn width(&self) -> (w: usize)
        ensures
            w == self.spec_width(),
    {
        self.width
    }

    /// The number of rows.
    pub fn height(&self) -> (h: usize)
        ensures
            h == self.spec_height(),
    {
        self.height
    }

    /// The cell at `(x, y)`, for coordinates known to be in bounds.
    pub fn cell(&self, x: usize, y: usize) -> (c: Cell)
        requires
            self.wf(),
            self.in_bounds(x as int, y as int),
        ensures
            c == self.cell_at(x as int, y as int),
    {
        proof {
            lemma_row_major_bounds(self.spec_width(), self.spec_height(), x as int, y as int);
        }
        self.cells[y * self.width + x]
    }

    /// The flat row-major sequence of cells: the cell at `(x, y)` sits at
    /// index `y * width + x`.
    pub fn cells(&self) -> (r: &Vec<Cell>)
        requires
            self.wf(),
        ensures
            r@.len() == self.spec_width() * self.spec_height(),
            forall|x: int, y: int|
                self.in_bounds(x, y) ==> r@[y * self.spec_width() + x] == #[trigger] self.cell_at(
                    x,
                    y,
                ),
    {
        &self.cells
    }

    /// A read-only view of which walls of the cell at `coords` are carved.
    /// Returns the cell's wall states when `coords` is in bounds and
    /// `OutOfBounds` otherwise.
    pub fn get_walls(&self, coords: (usize, usize)) -> (r: Result<Cell, GridError>)
        requires
            self.wf(),
        ensures
            self.in_bounds(coords.0 as int, coords.1 as int) ==> r == Ok::<Cell, GridError>(
                self.cell_at(coords.0 as int, coords.1 as int),
            ),
            !self.in_bounds(coords.0 as int, coords.1 as int) ==> r == Err::<Cell, GridError>(
                GridError::OutOfBounds,
            ),
    {
        let (x, y) = coords;
        if x < self.width && y < self.height {
            Ok(self.cell(x, y))
        } else {
            Err(GridError::OutOfBounds)
        }
    }

    /// Opens the wall on `pole` of the cell at `coords` and, symmetrically,
    /// the wall on the opposite pole of the neighbouring cell in direction
    /// `pole`. Succeeds exactly when `coords` is in bounds and that neighbour
    /// exists; on failure the grid is left unchanged. Exactly the two cells
    /// involved are touched, and only the named wall of each is opened.
    pub fn carve_passage(&mut self, coords: (usize, usize), pole: Pole) -> (r: Result<
        (),
        GridError,
    >)
        requires
            old(self).wf(),
        ensures
            final(self).wf(),
            final(self).spec_width() == old(self).spec_width(),
            final(self).spec_height() == old(self).spec_height(),
            r is Ok <==> old(self).in_bounds(coords.0 as int, coords.1 as int) && old(
                self,
            ).has_neighbor(coords.0 as int, coords.1 as int, pole),
            r is Err ==> *final(self) == *old(self) && r == Err::<(), GridError>(
                GridError::OutOfBounds,
            ),
            r is Ok ==> final(self).cell_at(coords.0 as int, coords.1 as int) == old(self).cell_at(
                coords.0 as int,
                coords.1 as int,
            ).spec_carve(pole),
            r is Ok ==> final(self).cell_at(
                neighbor_of(coords.0 as int, coords.1 as int, pole).0,
                neighbor_of(coords.0 as int, coords.1 as int, pole).1,
            ) == old(self).cell_at(
                neighbor_of(coords.0 as int, coords.1 as int, pole).0,
                neighbor_of(coords.0 as int, coords.1 as int, pole).1,
            ).spec_carve(pole.spec_opposite()),
            r is Ok ==> forall|a: int, b: int|
                old(self).in_bounds(a, b) && !(a == coords.0 && b == coords.1) && !((a, b)
                    == neighbor_of(coords.0 as int, coords.1 as int, pole)) ==> (
                #[trigger] final(self).cell_at(a, b)) == old(self).cell_at(a, b),
    {
        let (x, y) = coords;
        if x >= self.width || y >= self.height {
            return Err(GridError::OutOfBounds);
        }
        let (nx, ny): (usize, usize) = match pole {
            Pole::N => {
                if y == 0 {
                    return Err(GridError::OutOfBounds);
                }
                (x, y - 1)
            },
            Pole::S => {
                if y + 1 >= self.height {
                    return Err(GridError::OutOfBounds);
                }
                (x, y + 1)
            },
            Pole::E => {
                if x + 1 >= self.width {
                    return Err(GridError::OutOfBounds);
                }
                (x + 1, y)
            },
            Pole::W => {
                if x == 0 {
                    return Err(GridError::OutOfBounds);
                }
                (x - 1, y)
            },
        };
        proof {
            lemma_row_major_bounds(self.spec_width(), self.spec_height(), x as int, y as int);
            lemma_row_major_bounds(self.spec_width(), self.spec_height(), nx as int, ny as int);
            lemma_row_major_injective(
                self.spec_width(),
                x as int,
                y as int,
                nx as int,
                ny as int,
            );
        }
        let idx = y * self.width + x;
        let nidx = ny * self.width + nx;
        let here = self.cells[idx];
        let there = self.cells[nidx];
        let opposite = pole.opposite();
        self.cells[idx] = here.carve(pole);
        self.cells[nidx] = there.carve(opposite);
        proof {
            self.lemma_carve_updates(*old(self), x as int, y as int, nx as int, ny as int, pole);
        }
        Ok(())
    }

    /// How a single cell of the new grid relates to the old one after the
    /// two index writes of a carve: the addressed cell and its neighbour are
    /// carved on the facing poles, every other cell is untouched.
    proof fn lemma_cell_after_carve(
        self,
        prev: Grid,
        x: int,
        y: int,
        nx: int,
        ny: int,
        pole: Pole,
        p: int,
        q: int,
    )
        requires
            prev.wf(),
            self.spec_width() == prev.spec_width(),
            self.spec_height() == prev.spec_height(),
            prev.in_bounds(x, y),
            prev.in_bounds(nx, ny),
            (nx, ny) == neighbor_of(x, y, pole),
            self.cells@ == prev.cells@.update(
                y * prev.spec_width() + x,
                prev.cell_at(x, y).spec_carve(pole),
            ).update(ny * prev.spec_width() + nx, prev.cell_at(nx, ny).spec_carve(
                pole.spec_opposite(),
            )),
            prev.in_bounds(p, q),
        ensures
            p == x && q == y ==> self.cell_at(p, q) == prev.cell_at(x, y).spec_carve(pole),
            p == nx && q == ny ==> self.cell_at(p, q) == prev.cell_at(nx, ny).spec_carve(
                pole.spec_opposite(),
            ),
            !(p == x && q == y) && !(p == nx && q == ny) ==> self.cell_at(p, q) == prev.cell_at(
                p,
                q,
            ),
    {
        let w = prev.spec_width();
        let h = prev.spec_height();
        lemma_row_major_bounds(w, h, x, y);
        lemma_row_major_bounds(w, h, nx, ny);
        lemma_row_major_bounds(w, h, p, q);
        lemma_row_major_injective(w, x, y, nx, ny);
        if !(p == x && q == y) {
            lemma_row_major_injective(w, p, q, x, y);
        }
        if !(p == nx && q == ny) {
            lemma_row_major_injective(w, p, q, nx, ny);
        }
    }

    /// After the two index writes of a carve, relates every cell of the new
    /// grid to the old one and re-establishes well-formedness.
    proof fn lemma_carve_updates(self, prev: Grid, x: int, y: int, nx: int, ny: int, pole: Pole)
        requires
            prev.wf(),
            self.spec_width() == prev.spec_width(),
            self.spec_height() == prev.spec_height(),
            prev.in_bounds(x, y),
            prev.in_bounds(nx, ny),
            (nx, ny) == neighbor_of(x, y, pole),
            self.cells@ == prev.cells@.update(
                y * prev.spec_width() + x,
                prev.cell_at(x, y).spec_carve(pole),
            ).update(ny * prev.spec_width() + nx, prev.cell_at(nx, ny).spec_carve(
                pole.spec_opposite(),
            )),
        ensures
            self.wf(),
            self.cell_at(x, y) == prev.cell_at(x, y).spec_carve(pole),
            self.cell_at(nx, ny) == prev.cell_at(nx, ny).spec_carve(pole.spec_opposite()),
            forall|a: int, b: int|
                prev.in_bounds(a, b) && !(a == x && b == y) && !(a == nx && b == ny) ==> (
                #[trigger] self.cell_at(a, b)) == prev.cell_at(a, b),
    {
        let w = prev.spec_width();
        let h = prev.spec_height();
        lemma_row_major_bounds(w, h, x, y);
        lemma_row_major_bounds(w, h, nx, ny);
        self.lemma_cell_after_carve(prev, x, y, nx, ny, pole, x, y);
        self.lemma_cell_after_carve(prev, x, y, nx, ny, pole, nx, ny);
        assert forall|a: int, b: int|
            prev.in_bounds(a, b) && !(a == x && b == y) && !(a == nx && b == ny) implies (
        #[trigger] self.cell_at(a, b)) == prev.cell_at(a, b) by {
            self.lemma_cell_after_carve(prev, x, y, nx, ny, pole, a, b);
        }
        // Walls are only ever opened by a carve, so every old symmetry fact is
        // kept, and the newly carved pair establishes symmetry for the new
        // walls on its own.
        assert forall|a: int, b: int| self.in_bounds(a, b) implies #[trigger] self.sym_ok_at(
            a,
            b,
        ) by {
            assert(prev.sym_ok_at(a, b));
            self.lemma_cell_after_carve(prev, x, y, nx, ny, pole, a, b);
            if prev.in_bounds(a, b - 1) {
                self.lemma_cell_after_carve(prev, x, y, nx, ny, pole, a, b - 1);
            }
            if prev.in_bounds(a, b + 1) {
                self.lemma_cell_after_carve(prev, x, y, nx, ny, pole, a, b + 1);
            }
            if prev.in_bounds(a + 1, b) {
                self.lemma_cell_after_carve(prev, x, y, nx, ny, pole, a + 1, b);
            }
            if prev.in_bounds(a - 1, b) {
                self.lemma_cell_after_carve(prev, x, y, nx, ny, pole, a - 1, b);
            }
        }
    }
}

/// A row-major index stays inside a `w`-by-`h` flat array.
pub proof fn lemma_row_major_bounds(w: int, h: int, x: int, y: int)
    requires
        w >= 1,
        h >= 1,
        0 <= x < w,
        0 <= y < h,
    ensures
        0 <= y * w + x < w * h,
{
    assert(y * w + x < w * h) by (nonlinear_arith)
        requires
            0 <= x < w,
            0 <= y < h,
    ;
}

/// Distinct in-bounds coordinates give distinct row-major indices.
pub proof fn lemma_row_major_injective(w: int, x1: int, y1: int, x2: int, y2: int)
    requires
        w >= 1,
        0 <= x1 < w,
        0 <= x2 < w,
        0 <= y1,
        0 <= y2,
        !(x1 == x2 && y1 == y2),
    ensures
        y1 * w + x1 != y2 * w + x2,
{
    assert(y1 * w + x1 != y2 * w + x2) by (nonlinear_arith)
        requires
            w >= 1,
            0 <= x1 < w,
            0 <= x2 < w,
            0 <= y1,
            0 <= y2,
            !(x1 == x2 && y1 == y2),
    ;
}

} // verus!
