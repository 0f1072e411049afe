//! Laws that the grid and the renderer together satisfy, proved against the
//! contracts of `Grid` and `Image`.

use crate::buffer::PixelBuffer;
use crate::cell::Cell;
use crate::grid::{neighbor_of, Grid};
use crate::pole::Pole;
use crate::render::Image;
use vstd::arithmetic::div_mod::{lemma_fundamental_div_mod, lemma_mod_bound};
use vstd::prelude::*;

verus! {

/// The wall symmetry invariant, as every successful carve re-establishes
/// it: in a well-formed grid a carved wall always has an existing neighbour
/// on its other side, and that neighbour's facing wall is carved as well.
pub proof fn lemma_wall_symmetry(grid: Grid, x: int, y: int, pole: Pole)
    requires
        grid.wf(),
        grid.in_bounds(x, y),
        grid.cell_at(x, y).spec_carved(pole),
    ensures
        grid.has_neighbor(x, y, pole),
        grid.cell_at(neighbor_of(x, y, pole).0, neighbor_of(x, y, pole).1).spec_carved(
            pole.spec_opposite(),
        ),
{
    assert(grid.sym_ok_at(x, y));
}

/// Whether every wall of every cell of `grid` is closed: the state of a
/// fresh grid on which no carve has happened.
pub open spec fn all_closed(grid: Grid) -> bool {
    forall|x: int, y: int|
        grid.in_bounds(x, y) ==> (#[trigger] grid.cell_at(x, y)) == (Cell {
            north: false,
            east: false,
            south: false,
            west: false,
        })
}

/// Whether every internal wall of `grid` is carved on both sides: each
/// cell's wall is open exactly where a neighbour exists.
pub open spec fn fully_open(grid: Grid) -> bool {
    forall|x: int, y: int|
        grid.in_bounds(x, y) ==> (#[trigger] grid.cell_at(x, y)) == (Cell {
            north: y >= 1,
            east: x + 1 < grid.spec_width(),
            south: y + 1 < grid.spec_height(),
            west: x >= 1,
        })
}

/// Rendering is deterministic: any two renderings of the same grid under
/// the same parameters are identical, extent for extent and byte for byte.
pub proof fn lemma_render_deterministic(
    params: Image,
    grid: Grid,
    first: PixelBuffer,
    second: PixelBuffer,
)
    requires
        params.rendering_of(grid, first),
        params.rendering_of(grid, second),
    ensures
        first.spec_width() == second.spec_width(),
        first.spec_height() == second.spec_height(),
        first.pixels@ == second.pixels@,
{
    let w = first.spec_width();
    let h = first.spec_height();
    assert forall|i: int| 0 <= i < first.pixels@.len() implies first.pixels@[i]
        == second.pixels@[i] by {
        let px = i % w;
        let py = i / w;
        lemma_fundamental_div_mod(i, w);
        lemma_mod_bound(i, w);
        assert(py >= 0 && py < h) by (nonlinear_arith)
            requires
                i == w * py + px,
                0 <= px < w,
                0 <= i < w * h,
                w >= 1,
        ;
        assert(first.pixel_at(px, py) == second.pixel_at(px, py));
        assert(py * w + px == i);
    }
    assert(first.pixels@ =~= second.pixels@);
}

/// A pixel strictly inside the passage band of one axis of a cell is not
/// covered by any other cell of that axis: the squares of distinct cells
/// overlap only over their joint wall.
proof fn lemma_interior_covered_once(params: Image, c: int, a: int, d: int)
    requires
        params.wall_width < d < params.spec_cell_width_without_joint(),
        a != c,
        a >= 0,
        c >= 0,
    ensures
        !(params.spec_origin(a) <= params.spec_origin(c) + d <= params.spec_origin(a)
            + params.spec_cell_width()),
{
    let nj = params.spec_cell_width_without_joint();
    if a < c {
        assert((c - a) * nj >= nj) by (nonlinear_arith)
            requires
                c - a >= 1,
                nj >= 0,
        ;
        assert(c * nj == a * nj + (c - a) * nj) by (nonlinear_arith);
    } else {
        assert((a - c) * nj >= nj) by (nonlinear_arith)
            requires
                a - c >= 1,
                nj >= 0,
        ;
        assert(a * nj == c * nj + (a - c) * nj) by (nonlinear_arith);
    }
}

/// Rendering a fully closed grid paints every cell's border region — every
/// pixel of its square whose first matching region is a corner or an edge,
/// that is, every offset outside the central block strictly past the wall on
/// both axes — in the foreground color, and leaves every pixel strictly
/// inside its passage in the background color.
pub proof fn lemma_closed_grid_rendering(
    params: Image,
    grid: Grid,
    buf: PixelBuffer,
    cx: int,
    cy: int,
    dx: int,
    dy: int,
)
    requires
        grid.wf(),
        all_closed(grid),
        params.margin >= 1,
        params.rendering_of(grid, buf),
        grid.in_bounds(cx, cy),
        0 <= dx <= params.spec_cell_width(),
        0 <= dy <= params.spec_cell_width(),
    ensures
        !(params.wall_width < dx <= params.spec_cell_width_without_joint() && params.wall_width
            < dy <= params.spec_cell_width_without_joint()) ==> buf.pixel_at(
            params.spec_origin(cx) + dx,
            params.spec_origin(cy) + dy,
        ) == params.foreground_color,
        params.wall_width < dx < params.spec_cell_width_without_joint() && params.wall_width < dy
            < params.spec_cell_width_without_joint() ==> buf.pixel_at(
            params.spec_origin(cx) + dx,
            params.spec_origin(cy) + dy,
        ) == params.background_color,
{
    let px = params.spec_origin(cx) + dx;
    let py = params.spec_origin(cy) + dy;
    params.lemma_cell_origin_in_image(grid.spec_width(), cx);
    params.lemma_cell_origin_in_image(grid.spec_height(), cy);
    assert(buf.in_bounds(px, py));
    let w = params.wall_width as int;
    let nj = params.spec_cell_width_without_joint();
    if !(w < dx <= nj && w < dy <= nj) {
        // The cell's own paint decision claims the pixel: its first matching
        // region is a corner or an edge, and every wall is closed.
        assert(params.cell_paints(grid, cx, cy, px, py));
        assert(params.is_foreground(grid, px, py));
    }
    if w < dx < nj && w < dy < nj {
        // No cell paints the pixel: only this cell covers it, and its first
        // matching region is the passage.
        assert forall|a: int, b: int|
            grid.in_bounds(a, b) implies !(#[trigger] params.cell_paints(
            grid,
            a,
            b,
            px,
            py,
        )) by {
            if a != cx {
                lemma_interior_covered_once(params, cx, a, dx);
            } else if b != cy {
                lemma_interior_covered_once(params, cy, b, dy);
            }
        }
        assert(!params.is_foreground(grid, px, py));
    }
}

/// Rendering a fully open grid leaves a gap-free corridor: every pixel
/// farther than one wall thickness from the maze's outer rim is the
/// background color — no isolated foreground pixel appears inside any
/// cell's passage or shared open corner.
pub proof fn lemma_open_grid_interior_clear(
    params: Image,
    grid: Grid,
    buf: PixelBuffer,
    px: int,
    py: int,
)
    requires
        grid.wf(),
        fully_open(grid),
        params.rendering_of(grid, buf),
        params.margin + params.wall_width < px < params.margin + params.spec_maze_extent(
            grid.spec_width(),
        ) - params.wall_width,
        params.margin + params.wall_width < py < params.margin + params.spec_maze_extent(
            grid.spec_height(),
        ) - params.wall_width,
    ensures
        buf.pixel_at(px, py) == params.background_color,
{
    let w = params.wall_width as int;
    let nj = params.spec_cell_width_without_joint();
    let gw = grid.spec_width();
    let gh = grid.spec_height();
    params.lemma_maze_extent_alt(gw);
    params.lemma_maze_extent_alt(gh);
    assert(buf.in_bounds(px, py)) by {
        assert(params.spec_maze_extent(gw) + 2 * params.margin == buf.spec_width());
        assert(params.spec_maze_extent(gh) + 2 * params.margin == buf.spec_height());
    }
    assert forall|a: int, b: int|
        grid.in_bounds(a, b) implies !(#[trigger] params.cell_paints(grid, a, b, px, py)) by {
        if params.covers(a, b, px, py) {
            let ddx = px - params.spec_origin(a);
            let ddy = py - params.spec_origin(b);
            // A wall of the cell at (a, b) is closed only on the grid's
            // outer rim, and there the offsets put the pixel within one
            // wall thickness of the maze's rim — excluded by the bounds.
            if a == 0 {
                assert(params.spec_origin(0) == params.margin);
            }
            if a + 1 >= gw {
                assert(a == gw - 1);
                assert(params.spec_origin(gw - 1) + nj == params.margin + params.spec_maze_extent(
                    gw,
                ) - w) by (nonlinear_arith)
                    requires
                        params.spec_origin(gw - 1) == (gw - 1) * nj + params.margin,
                        params.spec_maze_extent(gw) == gw * nj + w,
                        nj == params.spec_cell_width_without_joint(),
                        w == params.wall_width,
                ;
            }
            if b == 0 {
                assert(params.spec_origin(0) == params.margin);
            }
            if b + 1 >= gh {
                assert(b == gh - 1);
                assert(params.spec_origin(gh - 1) + nj == params.margin + params.spec_maze_extent(
                    gh,
                ) - w) by (nonlinear_arith)
                    requires
                        params.spec_origin(gh - 1) == (gh - 1) * nj + params.margin,
                        params.spec_maze_extent(gh) == gh * nj + w,
                        nj == params.spec_cell_width_without_joint(),
                        w == params.wall_width,
                ;
            }
            assert(!params.region_paints(grid.cell_at(a, b), ddx, ddy));
        }
    }
    assert(!params.is_foreground(grid, px, py));
}

} // verus!
