//! The raster formatter: turns a finished grid and a set of rendering
//! parameters into a pixel buffer.
//!
//! Every pixel starts as the background color. Each cell is then drawn over
//! a closed square of side `cell width` at its origin; within that square a
//! pixel is classified into one of nine regions — four corners, four wall
//! edges and the central passage — tested in a fixed priority order, corners
//! before their adjacent edges before the centre. The first region whose
//! offset range holds governs the pixel. A pixel is painted in the
//! foreground color unless the walls meeting its region are carved: a corner
//! stays background only when both walls meeting there are carved, an edge
//! when its wall is carved, and the passage always. Cells never paint the
//! background color, so the drawing order does not matter: a pixel ends up
//! in the foreground exactly when some cell paints it.

use crate::buffer::PixelBuffer;
use crate::cell::Cell;
use crate::color::Color;
use crate::grid::Grid;
use vstd::prelude::*;

verus! {

/// Rendering parameters and the renderer itself: wall thickness, passage
/// width and margin in pixels, and the two colors of the output.
pub struct Image {
    pub wall_width: usize,
    pub passage_width: usize,
    pub margin: usize,
    pub background_color: Color,
    pub foreground_color: Color,
}

impl Image {
    /// Renderer with the default parameters.
    pub fn new() -> (img: Image)
        ensures
            img.wall_width == 40,
            img.passage_width == 40,
            img.margin == 50,
            img.background_color == (Color::RGB(250, 250, 250)),
            img.foreground_color == (Color::RGB(0, 0, 0)),
    {
        Image {
            wall_width: 40,
            passage_width: 40,
            background_color: Color::RGB(250, 250, 250),
            foreground_color: Color::RGB(0, 0, 0),
            margin: 50,
        }
    }

    /// Sets the wall thickness in pixels.
    pub fn wall(self, width: usize) -> (img: Image)
        ensures
            img == (Image { wall_width: width, ..self }),
    {
        Image { wall_width: width, ..self }
    }

    /// Sets the passage width in pixels.
    pub fn passage(self, width: usize) -> (img: Image)
        ensures
            img == (Image { passage_width: width, ..self }),
    {
        Image { passage_width: width, ..self }
    }

    /// Sets the fill color of margins, passages and open corners.
    pub fn background(self, color: Color) -> (img: Image)
        ensures
            img == (Image { background_color: color, ..self }),
    {
        Image { background_color: color, ..self }
    }

    /// Sets the color of walls and closed corners.
    pub fn foreground(self, color: Color) -> (img: Image)
        ensures
            img == (Image { foreground_color: color, ..self }),
    {
        Image { foreground_color: color, ..self }
    }

    /// Sets the border padding in pixels.
    pub fn margin(self, value: usize) -> (img: Image)
        ensures
            img == (Image { margin: value, ..self }),
    {
        Image { margin: value, ..self }
    }

    /// Full pixel extent of one cell: both half-walls and the passage.
    pub open spec fn spec_cell_width(self) -> int {
        2 * self.wall_width + self.passage_width
    }

    /// The stride between the origins of adjacent cells: two cells share a
    /// single joint wall, so one wall thickness is counted once, not twice.
    pub open spec fn spec_cell_width_without_joint(self) -> int {
        self.wall_width + self.passage_width
    }

    /// Extent of the maze proper over `n` cells in one axis: `n` full cell
    /// widths minus the `n - 1` joint walls counted twice.
    pub open spec fn spec_maze_extent(self, n: int) -> int {
        self.spec_cell_width() * n - (n - 1) * self.wall_width
    }

    /// Extent of the output image over `n` cells in one axis: the maze plus
    /// the margin on both sides.
    pub open spec fn spec_image_extent(self, n: int) -> int {
        self.spec_maze_extent(n) + 2 * self.margin
    }

    /// The pixel row or column where the cell with grid coordinate `c` in
    /// that axis begins.
    pub open spec fn spec_origin(self, c: int) -> int {
        c * self.spec_cell_width_without_joint() + self.margin
    }

    /// The machine bound: all the pixel arithmetic for a grid of the given
    /// extents stays within `usize`.
    pub open spec fn fits(self, grid_width: int, grid_height: int) -> bool {
        &&& self.spec_cell_width() * grid_width <= usize::MAX
        &&& self.spec_cell_width() * grid_height <= usize::MAX
        &&& self.spec_image_extent(grid_width) <= usize::MAX
        &&& self.spec_image_extent(grid_height) <= usize::MAX
        &&& self.spec_image_extent(grid_width) * self.spec_image_extent(grid_height)
            <= usize::MAX
    }

    /// The maze extent written with the shared-wall stride: `n` strides plus
    /// the one closing wall.
    pub proof fn lemma_maze_extent_alt(self, n: int)
        ensures
            self.spec_maze_extent(n) == n * self.spec_cell_width_without_joint()
                + self.wall_width,
    {
        assert(self.spec_cell_width() * n - (n - 1) * self.wall_width == n * (
        self.wall_width + self.passage_width) + self.wall_width) by (nonlinear_arith);
    }

    /// Bounds used by the extent computation: the joint walls never exceed
    /// the full cell widths, and one cell never exceeds the maze.
    pub proof fn lemma_extent_bounds(self, n: int)
        requires
            n >= 1,
        ensures
            (n - 1) * self.wall_width <= self.spec_cell_width() * n,
            self.spec_cell_width() <= self.spec_maze_extent(n),
            self.spec_maze_extent(n) <= self.spec_cell_width() * n,
    {
        self.lemma_maze_extent_alt(n);
        assert((n - 1) * self.wall_width <= self.spec_cell_width() * n && self.spec_cell_width()
            <= n * self.spec_cell_width_without_joint() + self.wall_width && n * (
        self.wall_width + self.passage_width) + self.wall_width <= self.spec_cell_width() * n)
            by (nonlinear_arith)
            requires
                n >= 1,
        ;
    }

    /// The paint decision for one pixel of one cell, by its offset
    /// `(dx, dy)` from the cell's origin. The nine regions are tested in a
    /// fixed priority order — each corner before the edges beside it, edges
    /// before the centre — and the first region whose offset range holds
    /// governs the pixel; the order matters exactly at the boundary offsets,
    /// where the ranges meet. A pixel is painted unless the walls meeting
    /// its region are carved: a corner stays background only when both walls
    /// meeting there are carved, an edge when its wall is carved, and the
    /// central passage always.
    pub open spec fn region_paints(self, cell: Cell, dx: int, dy: int) -> bool {
        let w = self.wall_width as int;
        let nj = self.spec_cell_width_without_joint();
        if dx <= w && dy <= w {
            !(cell.north && cell.west)
        } else if w <= dx <= nj && dy <= w {
            !cell.north
        } else if nj <= dx && dy <= w {
            !(cell.north && cell.east)
        } else if dx <= w && w <= dy <= nj {
            !cell.west
        } else if w <= dx <= nj && w <= dy <= nj {
            false
        } else if nj <= dx && w <= dy <= nj {
            !cell.east
        } else if dx <= w && nj <= dy {
            !(cell.south && cell.west)
        } else if w <= dx <= nj && nj <= dy {
            !cell.south
        } else if nj <= dx && nj <= dy {
            !(cell.south && cell.east)
        } else {
            true
        }
    }

    /// Whether the cell at `(cx, cy)` covers the pixel `(px, py)`: the pixel
    /// lies in the closed square of side `cell width` at the cell's origin.
    /// Neighbouring cells' squares overlap over the thickness of their joint
    /// wall.
    pub open spec fn covers(self, cx: int, cy: int, px: int, py: int) -> bool {
        &&& self.spec_origin(cx) <= px <= self.spec_origin(cx) + self.spec_cell_width()
        &&& self.spec_origin(cy) <= py <= self.spec_origin(cy) + self.spec_cell_width()
    }

    /// Whether drawing the cell at `(cx, cy)` paints the pixel `(px, py)`
    /// in the foreground color.
    pub open spec fn cell_paints(self, grid: Grid, cx: int, cy: int, px: int, py: int) -> bool {
        &&& self.covers(cx, cy, px, py)
        &&& self.region_paints(
            grid.cell_at(cx, cy),
            px - self.spec_origin(cx),
            py - self.spec_origin(cy),
        )
    }

    /// Whether the finished image has the pixel `(px, py)` in the foreground
    /// color: some cell paints it. Cells only ever paint the foreground, so
    /// the order in which they are drawn does not matter.
    pub open spec fn is_foreground(self, grid: Grid, px: int, py: int) -> bool {
        exists|cx: int, cy: int|
            grid.in_bounds(cx, cy) && #[trigger] self.cell_paints(grid, cx, cy, px, py)
    }

    /// What a finished rendering of `grid` under these parameters is: a
    /// well-formed buffer of the derived image extents whose every pixel is
    /// the foreground color where some cell paints it and the background
    /// color everywhere else.
    pub open spec fn rendering_of(self, grid: Grid, buf: PixelBuffer) -> bool {
        &&& buf.wf()
        &&& buf.spec_width() == self.spec_image_extent(grid.spec_width())
        &&& buf.spec_height() == self.spec_image_extent(grid.spec_height())
        &&& forall|px: int, py: int|
            buf.in_bounds(px, py) ==> (#[trigger] buf.pixel_at(px, py)) == (
            if self.is_foreground(grid, px, py) {
                self.foreground_color
            } else {
                self.background_color
            })
    }

    /// The executable paint decision, mirroring `region_paints`.
    fn paints(&self, cell: &Cell, dx: usize, dy: usize) -> (b: bool)
        requires
            self.spec_cell_width_without_joint() <= usize::MAX,
        ensures
            b == self.region_paints(*cell, dx as int, dy as int),
    {
        let w = self.wall_width;
        let nj = self.wall_width + self.passage_width;
        if dx <= w && dy <= w {
            !(cell.north && cell.west)
        } else if w <= dx && dx <= nj && dy <= w {
            !cell.north
        } else if nj <= dx && dy <= w {
            !(cell.north && cell.east)
        } else if dx <= w && w <= dy && dy <= nj {
            !cell.west
        } else if w <= dx && dx <= nj && w <= dy && dy <= nj {
            false
        } else if nj <= dx && w <= dy && dy <= nj {
            !cell.east
        } else if dx <= w && nj <= dy {
            !(cell.south && cell.west)
        } else if w <= dx && dx <= nj && nj <= dy {
            !cell.south
        } else if nj <= dx && nj <= dy {
            !(cell.south && cell.east)
        } else {
            true
        }
    }

    /// Pixels of the cell square at origin `(ox, oy)` already visited by the
    /// row-by-row sweep of `draw_cell` — whole rows before `ndy`, then row
    /// `ndy` up to column `ndx` — and painted by the paint decision.
    spec fn drawn_upto(
        self,
        cell: Cell,
        ox: int,
        oy: int,
        ndy: int,
        ndx: int,
        px: int,
        py: int,
    ) -> bool {
        &&& ox <= px <= ox + self.spec_cell_width()
        &&& oy <= py <= oy + self.spec_cell_width()
        &&& (py - oy < ndy || (py - oy == ndy && px - ox < ndx))
        &&& self.region_paints(cell, px - ox, py - oy)
    }

    /// Draws one cell: paints the foreground color over every pixel of the
    /// cell's square that the paint decision selects, and leaves every other
    /// pixel of the image untouched.
    #[verifier::loop_isolation(false)]
    fn draw_cell(&self, coords: (usize, usize), cell: &Cell, image: &mut PixelBuffer)
        requires
            old(image).wf(),
            self.spec_origin(coords.0 as int) + self.spec_cell_width() < old(image).spec_width(),
            self.spec_origin(coords.1 as int) + self.spec_cell_width() < old(image).spec_height(),
        ensures
            final(image).wf(),
            final(image).spec_width() == old(image).spec_width(),
            final(image).spec_height() == old(image).spec_height(),
            forall|px: int, py: int|
                old(image).in_bounds(px, py) ==> (#[trigger] final(image).pixel_at(px, py)) == (
                if self.covers(coords.0 as int, coords.1 as int, px, py) && self.region_paints(
                    *cell,
                    px - self.spec_origin(coords.0 as int),
                    py - self.spec_origin(coords.1 as int),
                ) {
                    self.foreground_color
                } else {
                    old(image).pixel_at(px, py)
                }),
    {
        let ghost orig = *image;
        let (cx, cy) = coords;
        let nj = self.wall_width + self.passage_width;
        let cw = self.cell_width();
        let start_x = cx * nj + self.margin;
        let start_y = cy * nj + self.margin;
        let ghost ox = start_x as int;
        let ghost oy = start_y as int;
        let mut dy: usize = 0;
        while dy <= cw
            invariant
                dy <= cw + 1,
                image.wf(),
                image.spec_width() == orig.spec_width(),
                image.spec_height() == orig.spec_height(),
                forall|px: int, py: int|
                    orig.in_bounds(px, py) ==> (#[trigger] image.pixel_at(px, py)) == (
                    if self.drawn_upto(*cell, ox, oy, dy as int, 0, px, py) {
                        self.foreground_color
                    } else {
                        orig.pixel_at(px, py)
                    }),
            decreases cw + 1 - dy,
        {
            let mut dx: usize = 0;
            while dx <= cw
                invariant
                    dx <= cw + 1,
                    dy <= cw,
                    image.wf(),
                    image.spec_width() == orig.spec_width(),
                    image.spec_height() == orig.spec_height(),
                    forall|px: int, py: int|
                        orig.in_bounds(px, py) ==> (#[trigger] image.pixel_at(px, py)) == (
                        if self.drawn_upto(*cell, ox, oy, dy as int, dx as int, px, py) {
                            self.foreground_color
                        } else {
                            orig.pixel_at(px, py)
                        }),
                decreases cw + 1 - dx,
            {
                let ghost pre = *image;
                if self.paints(cell, dx, dy) {
                    image.set(start_x + dx, start_y + dy, self.foreground_color);
                }
                proof {
                    assert forall|px: int, py: int| orig.in_bounds(px, py) implies (
                    #[trigger] image.pixel_at(px, py)) == (
                    if self.drawn_upto(*cell, ox, oy, dy as int, dx as int + 1, px, py) {
                        self.foreground_color
                    } else {
                        orig.pixel_at(px, py)
                    }) by {
                        if px == ox + dx && py == oy + dy {
                        } else {
                            assert(image.pixel_at(px, py) == pre.pixel_at(px, py));
                            assert(self.drawn_upto(*cell, ox, oy, dy as int, dx as int + 1, px, py)
                                == self.drawn_upto(*cell, ox, oy, dy as int, dx as int, px, py));
                        }
                    }
                }
                dx = dx + 1;
            }
            dy = dy + 1;
        }
    }

    /// Whether some cell already visited by the row-by-row sweep of
    /// `draw_maze` — whole rows before `ncy`, then row `ncy` up to column
    /// `ncx` — paints the pixel `(px, py)`.
    spec fn some_cell_paints_before(
        self,
        grid: Grid,
        ncy: int,
        ncx: int,
        px: int,
        py: int,
    ) -> bool {
        exists|cx: int, cy: int|
            {
                &&& grid.in_bounds(cx, cy)
                &&& (cy < ncy || (cy == ncy && cx < ncx))
                &&& #[trigger] self.cell_paints(grid, cx, cy, px, py)
            }
    }

    /// Draws every cell of the grid, row by row: afterwards a pixel is the
    /// foreground color where some cell paints it, and untouched everywhere
    /// else.
    #[verifier::loop_isolation(false)]
    fn draw_maze(&self, image: &mut PixelBuffer, grid: &Grid)
        requires
            old(image).wf(),
            grid.wf(),
            self.margin >= 1,
            self.fits(grid.spec_width(), grid.spec_height()),
            old(image).spec_width() == self.spec_image_extent(grid.spec_width()),
            old(image).spec_height() == self.spec_image_extent(grid.spec_height()),
        ensures
            final(image).wf(),
            final(image).spec_width() == old(image).spec_width(),
            final(image).spec_height() == old(image).spec_height(),
            forall|px: int, py: int|
                old(image).in_bounds(px, py) ==> (#[trigger] final(image).pixel_at(px, py)) == (
                if self.is_foreground(*grid, px, py) {
                    self.foreground_color
                } else {
                    old(image).pixel_at(px, py)
                }),
    {
        let ghost orig = *image;
        let gw = grid.width();
        let gh = grid.height();
        let mut cy: usize = 0;
        while cy < gh
            invariant
                cy <= gh,
                image.wf(),
                image.spec_width() == orig.spec_width(),
                image.spec_height() == orig.spec_height(),
                forall|px: int, py: int|
                    orig.in_bounds(px, py) ==> (#[trigger] image.pixel_at(px, py)) == (
                    if self.some_cell_paints_before(*grid, cy as int, 0, px, py) {
                        self.foreground_color
                    } else {
                        orig.pixel_at(px, py)
                    }),
            decreases gh - cy,
        {
            let mut cx: usize = 0;
            while cx < gw
                invariant
                    cx <= gw,
                    cy < gh,
                    image.wf(),
                    image.spec_width() == orig.spec_width(),
                    image.spec_height() == orig.spec_height(),
                    forall|px: int, py: int|
                        orig.in_bounds(px, py) ==> (#[trigger] image.pixel_at(px, py)) == (
                        if self.some_cell_paints_before(*grid, cy as int, cx as int, px, py) {
                            self.foreground_color
                        } else {
                            orig.pixel_at(px, py)
                        }),
                decreases gw - cx,
            {
                proof {
                    self.lemma_cell_origin_in_image(grid.spec_width(), cx as int);
                    self.lemma_cell_origin_in_image(grid.spec_height(), cy as int);
                }
                let ghost pre = *image;
                let cell = grid.cell(cx, cy);
                self.draw_cell((cx, cy), &cell, image);
                proof {
                    assert forall|px: int, py: int| orig.in_bounds(px, py) implies (
                    #[trigger] image.pixel_at(px, py)) == (
                    if self.some_cell_paints_before(*grid, cy as int, cx as int + 1, px, py) {
                        self.foreground_color
                    } else {
                        orig.pixel_at(px, py)
                    }) by {
                        if self.cell_paints(*grid, cx as int, cy as int, px, py) {
                            assert(self.some_cell_paints_before(
                                *grid,
                                cy as int,
                                cx as int + 1,
                                px,
                                py,
                            ));
                        } else {
                            assert(image.pixel_at(px, py) == pre.pixel_at(px, py));
                            if self.some_cell_paints_before(
                                *grid,
                                cy as int,
                                cx as int + 1,
                                px,
                                py,
                            ) {
                                let (a, b): (int, int) = choose|a: int, b: int|
                                    {
                                        &&& grid.in_bounds(a, b)
                                        &&& (b < cy as int || (b == cy as int && a < cx as int
                                            + 1))
                                        &&& #[trigger] self.cell_paints(*grid, a, b, px, py)
                                    };
                                assert(!(a == cx as int && b == cy as int));
                                assert(self.some_cell_paints_before(
                                    *grid,
                                    cy as int,
                                    cx as int,
                                    px,
                                    py,
                                ));
                            }
                            if self.some_cell_paints_before(*grid, cy as int, cx as int, px, py) {
                                assert(self.some_cell_paints_before(
                                    *grid,
                                    cy as int,
                                    cx as int + 1,
                                    px,
                                    py,
                                ));
                            }
                        }
                    }
                }
                cx = cx + 1;
            }
            proof {
                assert forall|px: int, py: int| orig.in_bounds(px, py) implies
                    self.some_cell_paints_before(*grid, cy as int + 1, 0, px, py)
                        == self.some_cell_paints_before(*grid, cy as int, gw as int, px, py) by {
                    if self.some_cell_paints_before(*grid, cy as int + 1, 0, px, py) {
                        let (a, b): (int, int) = choose|a: int, b: int|
                            {
                                &&& grid.in_bounds(a, b)
                                &&& (b < cy as int + 1 || (b == cy as int + 1 && a < 0))
                                &&& #[trigger] self.cell_paints(*grid, a, b, px, py)
                            };
                        assert(b < cy as int || (b == cy as int && a < gw as int));
                        assert(self.some_cell_paints_before(*grid, cy as int, gw as int, px, py));
                    }
                    if self.some_cell_paints_before(*grid, cy as int, gw as int, px, py) {
                        assert(self.some_cell_paints_before(*grid, cy as int + 1, 0, px, py));
                    }
                }
            }
            cy = cy + 1;
        }
        proof {
            assert forall|px: int, py: int| orig.in_bounds(px, py) implies
                self.some_cell_paints_before(*grid, gh as int, 0, px, py) == self.is_foreground(
                *grid,
                px,
                py,
            ) by {
                if self.some_cell_paints_before(*grid, gh as int, 0, px, py) {
                    let (a, b): (int, int) = choose|a: int, b: int|
                        {
                            &&& grid.in_bounds(a, b)
                            &&& (b < gh as int || (b == gh as int && a < 0))
                            &&& #[trigger] self.cell_paints(*grid, a, b, px, py)
                        };
                    assert(self.is_foreground(*grid, px, py));
                }
                if self.is_foreground(*grid, px, py) {
                    let (a, b): (int, int) = choose|a: int, b: int|
                        grid.in_bounds(a, b) && #[trigger] self.cell_paints(*grid, a, b, px, py);
                    assert(self.some_cell_paints_before(*grid, gh as int, 0, px, py));
                }
            }
        }
    }

    /// The origin of a cell in one axis lies inside the image, one cell
    /// width and more before its edge.
    pub proof fn lemma_cell_origin_in_image(self, n: int, c: int)
        requires
            self.margin >= 1,
            n >= 1,
            0 <= c < n,
        ensures
            self.margin <= self.spec_origin(c),
            self.spec_origin(c) + self.spec_cell_width() < self.spec_image_extent(n),
    {
        self.lemma_maze_extent_alt(n);
        let nj = self.spec_cell_width_without_joint();
        assert(c * nj <= (n - 1) * nj) by (nonlinear_arith)
            requires
                0 <= c < n,
                nj >= 0,
        ;
        assert((n - 1) * nj + nj == n * nj) by (nonlinear_arith);
    }

    /// Renders the grid: a buffer of the derived image extents, every pixel
    /// painted by some cell in the foreground color, every other pixel in
    /// the background color.
    pub fn format(&self, grid: &Grid) -> (image: PixelBuffer)
        requires
            grid.wf(),
            self.margin >= 1,
            self.fits(grid.spec_width(), grid.spec_height()),
        ensures
            self.rendering_of(*grid, image),
    {
        let (width, height) = self.sizes(grid);
        proof {
            self.lemma_extent_bounds(grid.spec_width());
            self.lemma_extent_bounds(grid.spec_height());
        }
        let mut image = PixelBuffer::new(width, height, self.background_color);
        self.draw_maze(&mut image, grid);
        image
    }

    /// Full pixel extent of one cell.
    pub fn cell_width(&self) -> (r: usize)
        requires
            self.spec_cell_width() <= usize::MAX,
        ensures
            r == self.spec_cell_width(),
    {
        self.wall_width * 2 + self.passage_width
    }

    /// The extents of the output image for `grid`: width, then height, each
    /// following the shared-wall formula
    /// `(2·wall + passage)·n − (n − 1)·wall + 2·margin`.
    pub fn sizes(&self, grid: &Grid) -> (r: (usize, usize))
        requires
            grid.wf(),
            self.fits(grid.spec_width(), grid.spec_height()),
        ensures
            r.0 == self.spec_image_extent(grid.spec_width()),
            r.1 == self.spec_image_extent(grid.spec_height()),
    {
        proof {
            self.lemma_extent_bounds(grid.spec_width());
            self.lemma_extent_bounds(grid.spec_height());
            assert(self.spec_cell_width() <= self.spec_cell_width() * grid.spec_width())
                by (nonlinear_arith)
                requires
                    grid.spec_width() >= 1,
                    self.spec_cell_width() >= 0,
            ;
        }
        let cw = self.cell_width();
        let maze_width = cw * grid.width() - (grid.width() - 1) * self.wall_width;
        let maze_height = cw * grid.height() - (grid.height() - 1) * self.wall_width;
        let image_width = maze_width + self.margin * 2;
        let image_height = maze_height + self.margin * 2;
        (image_width, image_height)
    }
}

} // verus!
