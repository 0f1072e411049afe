use maze_raster::grid::{Grid, GridError};
use maze_raster::pole::Pole;

#[test]
fn carve_opens_both_sides() {
    let mut grid = Grid::new(3, 3);
    assert!(grid.carve_passage((1, 1), Pole::N).is_ok());
    assert!(grid.carve_passage((1, 1), Pole::E).is_ok());
    assert!(grid.carve_passage((1, 1), Pole::S).is_ok());
    assert!(grid.carve_passage((1, 1), Pole::W).is_ok());

    let centre = grid.get_walls((1, 1)).unwrap();
    assert!(centre.carved(Pole::N));
    assert!(centre.carved(Pole::E));
    assert!(centre.carved(Pole::S));
    assert!(centre.carved(Pole::W));

    // each neighbour reports the opposite wall carved, and only that one
    let above = grid.get_walls((1, 0)).unwrap();
    assert!(above.carved(Pole::S));
    assert!(!above.carved(Pole::N) && !above.carved(Pole::E) && !above.carved(Pole::W));

    let right = grid.get_walls((2, 1)).unwrap();
    assert!(right.carved(Pole::W));
    assert!(!right.carved(Pole::N) && !right.carved(Pole::E) && !right.carved(Pole::S));

    let below = grid.get_walls((1, 2)).unwrap();
    assert!(below.carved(Pole::N));
    assert!(!below.carved(Pole::S) && !below.carved(Pole::E) && !below.carved(Pole::W));

    let left = grid.get_walls((0, 1)).unwrap();
    assert!(left.carved(Pole::E));
    assert!(!left.carved(Pole::N) && !left.carved(Pole::S) && !left.carved(Pole::W));

    // untouched corner cell stays fully closed
    let corner = grid.get_walls((0, 0)).unwrap();
    assert!(!corner.carved(Pole::N) && !corner.carved(Pole::E));
    assert!(!corner.carved(Pole::S) && !corner.carved(Pole::W));
}

#[test]
fn carve_toward_edge_fails_and_changes_nothing() {
    let mut grid = Grid::new(2, 2);
    assert!(grid.carve_passage((0, 0), Pole::S).is_ok());

    // carving off each rim fails with OutOfBounds
    assert_eq!(Err(GridError::OutOfBounds), grid.carve_passage((0, 0), Pole::N));
    assert_eq!(Err(GridError::OutOfBounds), grid.carve_passage((0, 0), Pole::W));
    assert_eq!(Err(GridError::OutOfBounds), grid.carve_passage((1, 1), Pole::S));
    assert_eq!(Err(GridError::OutOfBounds), grid.carve_passage((1, 1), Pole::E));
    // a coordinate outside the grid fails too
    assert_eq!(Err(GridError::OutOfBounds), grid.carve_passage((2, 0), Pole::W));
    assert_eq!(Err(GridError::OutOfBounds), grid.carve_passage((0, 7), Pole::N));

    // the failed calls left every wall as it was
    for y in 0..2 {
        for x in 0..2 {
            let walls = grid.get_walls((x, y)).unwrap();
            let expect_south = x == 0 && y == 0;
            let expect_north = x == 0 && y == 1;
            assert_eq!(expect_north, walls.carved(Pole::N));
            assert_eq!(expect_south, walls.carved(Pole::S));
            assert!(!walls.carved(Pole::E));
            assert!(!walls.carved(Pole::W));
        }
    }
}

#[test]
fn get_walls_out_of_bounds() {
    let grid = Grid::new(2, 3);
    assert_eq!(2, grid.width());
    assert_eq!(3, grid.height());
    assert!(grid.get_walls((1, 2)).is_ok());
    assert_eq!(Err(GridError::OutOfBounds), grid.get_walls((2, 0)));
    assert_eq!(Err(GridError::OutOfBounds), grid.get_walls((0, 3)));
}

#[test]
fn new_grid_all_closed() {
    let grid = Grid::new(4, 2);
    let flat = grid.cells();
    assert_eq!(8, flat.len());
    for cell in flat.iter() {
        assert!(!cell.carved(Pole::N));
        assert!(!cell.carved(Pole::E));
        assert!(!cell.carved(Pole::S));
        assert!(!cell.carved(Pole::W));
    }
}

#[test]
fn opposite_poles() {
    assert_eq!(Pole::S, Pole::N.opposite());
    assert_eq!(Pole::N, Pole::S.opposite());
    assert_eq!(Pole::W, Pole::E.opposite());
    assert_eq!(Pole::E, Pole::W.opposite());
}
