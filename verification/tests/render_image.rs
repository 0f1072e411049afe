use maze_raster::color::Color;
use maze_raster::grid::Grid;
use maze_raster::pole::Pole;
use maze_raster::render::Image;

/// Wall states (north, east, south, west) of one cell, used by the
/// pixel oracle below.
type Walls = (bool, bool, bool, bool);

/// The first-match paint decision over a cell's offsets, written out
/// independently of the library: corners, then edges, then the passage.
fn oracle_paints(walls: Walls, dx: usize, dy: usize, wall: usize, nj: usize) -> bool {
    let (n, e, s, w) = walls;
    if dx <= wall && dy <= wall {
        !(n && w)
    } else if dx >= wall && dx <= nj && dy <= wall {
        !n
    } else if dx >= nj && dy <= wall {
        !(n && e)
    } else if dx <= wall && dy >= wall && dy <= nj {
        !w
    } else if dx >= wall && dx <= nj && dy >= wall && dy <= nj {
        false
    } else if dx >= nj && dy >= wall && dy <= nj {
        !e
    } else if dx <= wall && dy >= nj {
        !(s && w)
    } else if dx >= wall && dx <= nj && dy >= nj {
        !s
    } else {
        !(s && e)
    }
}

/// Whether some cell of the maze paints the pixel, by the oracle.
fn oracle_foreground(
    walls: &Vec<Vec<Walls>>,
    px: usize,
    py: usize,
    wall: usize,
    passage: usize,
    margin: usize,
) -> bool {
    let nj = wall + passage;
    let cw = 2 * wall + passage;
    for (cy, row) in walls.iter().enumerate() {
        for (cx, cell) in row.iter().enumerate() {
            let ox = cx * nj + margin;
            let oy = cy * nj + margin;
            if px >= ox && px <= ox + cw && py >= oy && py <= oy + cw {
                if oracle_paints(*cell, px - ox, py - oy, wall, nj) {
                    return true;
                }
            }
        }
    }
    false
}

fn generate_maze() -> Grid {
    let mut grid = Grid::new(4, 4);

    grid.carve_passage((0, 0), Pole::S).unwrap();
    grid.carve_passage((0, 1), Pole::E).unwrap();
    grid.carve_passage((0, 2), Pole::E).unwrap();
    grid.carve_passage((0, 2), Pole::S).unwrap();
    grid.carve_passage((0, 3), Pole::E).unwrap();

    grid.carve_passage((1, 0), Pole::E).unwrap();
    grid.carve_passage((1, 1), Pole::E).unwrap();
    grid.carve_passage((1, 1), Pole::S).unwrap();
    grid.carve_passage((1, 2), Pole::E).unwrap();
    grid.carve_passage((1, 3), Pole::E).unwrap();

    grid.carve_passage((2, 0), Pole::E).unwrap();
    grid.carve_passage((2, 2), Pole::E).unwrap();
    grid.carve_passage((2, 3), Pole::E).unwrap();

    grid.carve_passage((3, 1), Pole::N).unwrap();
    grid.carve_passage((3, 1), Pole::S).unwrap();

    grid
}

/// The wall states the carve list above must produce, worked out by hand:
/// row by row, each cell as (north, east, south, west).
fn expected_walls() -> Vec<Vec<Walls>> {
    vec![
        vec![
            (false, false, true, false),
            (false, true, false, false),
            (false, true, false, true),
            (false, false, true, true),
        ],
        vec![
            (true, true, false, false),
            (false, true, true, true),
            (false, false, false, true),
            (true, false, true, false),
        ],
        vec![
            (false, true, true, false),
            (true, true, false, true),
            (false, true, false, true),
            (true, false, false, true),
        ],
        vec![
            (true, true, false, false),
            (false, true, false, true),
            (false, true, false, true),
            (false, false, false, true),
        ],
    ]
}

#[test]
fn format() {
    let formatter = Image::new();
    let grid = generate_maze();
    let walls = expected_walls();

    // the carve list produced exactly the hand-computed wall states
    for cy in 0..4 {
        for cx in 0..4 {
            let cell = grid.get_walls((cx, cy)).unwrap();
            let (n, e, s, w) = walls[cy][cx];
            assert_eq!(n, cell.carved(Pole::N), "north of ({}, {})", cx, cy);
            assert_eq!(e, cell.carved(Pole::E), "east of ({}, {})", cx, cy);
            assert_eq!(s, cell.carved(Pole::S), "south of ({}, {})", cx, cy);
            assert_eq!(w, cell.carved(Pole::W), "west of ({}, {})", cx, cy);
        }
    }

    let actual = formatter.format(&grid);
    assert_eq!(460, actual.width());
    assert_eq!(460, actual.height());

    // every pixel agrees with the independent oracle
    for py in 0..460 {
        for px in 0..460 {
            let expected = if oracle_foreground(&walls, px, py, 40, 40, 50) {
                Color::RGB(0, 0, 0)
            } else {
                Color::RGB(250, 250, 250)
            };
            assert_eq!(expected, actual.get(px, py), "pixel ({}, {})", px, py);
        }
    }

    // rendering the same grid again gives byte-identical output
    let again = formatter.format(&grid);
    assert_eq!(actual.width(), again.width());
    assert_eq!(actual.height(), again.height());
    assert!(actual.pixels() == again.pixels());
}

#[test]
fn sizes_formula() {
    let grid = Grid::new(4, 4);
    assert_eq!((460, 460), Image::new().sizes(&grid));

    // (2·10 + 5)·4 − 3·10 + 2·20 = 110 per axis
    let small = Image::new().wall(10).passage(5).margin(20);
    assert_eq!((110, 110), small.sizes(&grid));

    let tall = Grid::new(1, 6);
    // width: 25·1 − 0 + 40 = 65; height: 25·6 − 5·10 + 40 = 140
    assert_eq!((65, 140), small.sizes(&tall));
}

#[test]
fn closed_grid_borders_and_passages() {
    let params = Image::new().wall(2).passage(3).margin(1);
    let grid = Grid::new(2, 2);
    let buf = params.format(&grid);
    let fg = Color::RGB(0, 0, 0);
    let bg = Color::RGB(250, 250, 250);

    // cw = 7, nj = 5: per cell, the strict border band is foreground and
    // the strict passage interior is background
    for cy in 0..2usize {
        for cx in 0..2usize {
            let ox = cx * 5 + 1;
            let oy = cy * 5 + 1;
            for dy in 0..8usize {
                for dx in 0..8usize {
                    let c = buf.get(ox + dx, oy + dy);
                    if dx < 2 || dx > 5 || dy < 2 || dy > 5 {
                        assert_eq!(fg, c, "border ({}, {}) of cell ({}, {})", dx, dy, cx, cy);
                    }
                    if dx > 2 && dx < 5 && dy > 2 && dy < 5 {
                        assert_eq!(bg, c, "passage ({}, {}) of cell ({}, {})", dx, dy, cx, cy);
                    }
                }
            }
        }
    }

    // the near margin stays background; the cell squares are inclusive, so
    // the maze's outer rim reaches exactly one pixel into the far margin
    assert_eq!(bg, buf.get(0, 0));
    let (w, h) = params.sizes(&grid);
    assert_eq!(bg, buf.get(w - 1, 0));
    assert_eq!(bg, buf.get(0, h - 1));
    assert_eq!(fg, buf.get(w - 1, h - 1));
}

#[test]
fn open_grid_corridor_gap_free() {
    let params = Image::new().wall(2).passage(3).margin(1);
    let mut grid = Grid::new(3, 3);
    for y in 0..3usize {
        for x in 0..3usize {
            if x + 1 < 3 {
                grid.carve_passage((x, y), Pole::E).unwrap();
            }
            if y + 1 < 3 {
                grid.carve_passage((x, y), Pole::S).unwrap();
            }
        }
    }
    let buf = params.format(&grid);
    let bg = Color::RGB(250, 250, 250);

    // maze extent = 3·5 + 2 = 17; every pixel strictly inside the outer
    // wall band — beyond margin + wall on each side — is background
    for py in 0..buf.height() {
        for px in 0..buf.width() {
            let inside_x = px > 1 + 2 && px < 1 + 17 - 2;
            let inside_y = py > 1 + 2 && py < 1 + 17 - 2;
            if inside_x && inside_y {
                assert_eq!(bg, buf.get(px, py), "interior pixel ({}, {})", px, py);
            }
        }
    }
}

#[test]
fn render_deterministic() {
    let params = Image::new().wall(3).passage(4).margin(2);
    let mut grid = Grid::new(2, 3);
    grid.carve_passage((0, 0), Pole::E).unwrap();
    grid.carve_passage((0, 1), Pole::S).unwrap();
    grid.carve_passage((1, 1), Pole::N).unwrap();

    let first = params.format(&grid);
    let second = params.format(&grid);
    assert_eq!(first.width(), second.width());
    assert_eq!(first.height(), second.height());
    assert!(first.pixels() == second.pixels());
}

#[test]
fn boundary_offsets_follow_region_priority() {
    // one cell with only its north wall carved: at the exact boundary
    // offset dx == wall the north-west corner region wins over the north
    // edge, so the pixel is painted although the north wall is open
    let params = Image::new().wall(2).passage(3).margin(1);
    let mut grid = Grid::new(1, 2);
    grid.carve_passage((0, 0), Pole::S).unwrap();
    let buf = params.format(&grid);
    let fg = Color::RGB(0, 0, 0);
    let bg = Color::RGB(250, 250, 250);

    // cell (0, 1): origin (1, 6); north carved, west closed
    assert_eq!(fg, buf.get(1 + 2, 6 + 0)); // dx == wall: corner governs, painted
    assert_eq!(bg, buf.get(1 + 3, 6 + 0)); // dx just past wall: north edge, open
    assert_eq!(bg, buf.get(1 + 5, 6 + 0)); // dx == nj: still the north edge, open
    assert_eq!(fg, buf.get(1 + 6, 6 + 0)); // dx past nj: north-east corner, east closed
    // the shared wall band between the two cells is open on both sides
    assert_eq!(bg, buf.get(1 + 3, 6 + 1));
    assert_eq!(bg, buf.get(1 + 3, 6 - 1));
}
