//! A single maze cell and the state of its four walls.

use crate::pole::Pole;
use vstd::prelude::*;

verus! {

/// One maze unit. Each field records the state of the wall on the matching
/// pole: `true` means the wall is carved (a passage exists), `false` means
/// the wall is closed. Freshly built cells have every wall closed; a wall
/// is opened only through `Grid::carve_passage`.
#[derive(Clone, Copy, Debug, PartialEq, Eq, Structural)]
pub struct Cell {
    pub north: bool,
    pub east: bool,
    pub south: bool,
    pub west: bool,
}

impl Cell {
    /// Whether the wall on `pole` is carved.
    pub open spec fn spec_carved(self, pole: Pole) -> bool {
        match pole {
            Pole::N => self.north,
            Pole::E => self.east,
            Pole::S => self.south,
            Pole::W => self.west,
        }
    }

    /// This cell with the wall on `pole` carved and the other walls as they were.
    pub open spec fn spec_carve(self, pole: Pole) -> Cell {
        match pole {
            Pole::N => Cell { north: true, ..self },
            Pole::E => Cell { east: true, ..self },
            Pole::S => Cell { south: true, ..self },
            Pole::W => Cell { west: true, ..self },
        }
    }

    /// A cell with all four walls closed.
    pub fn closed() -> (c: Cell)
        ensures
            c == (Cell { north: false, east: false, south: false, west: false }),
    {
        Cell { north: false, east: false, south: false, west: false }
    }

    /// This cell with the wall on `pole` carved; the other walls keep
    /// their state.
    pub fn carve(self, pole: Pole) -> (c: Cell)
        ensures
            c == self.spec_carve(pole),
    {
        match pole {
            Pole::N => Cell { north: true, ..self },
            Pole::E => Cell { east: true, ..self },
            Pole::S => Cell { south: true, ..self },
            Pole::W => Cell { west: true, ..self },
        }
    }

    /// Reports whether the wall on `pole` is carved.
    pub fn carved(&self, pole: Pole) -> (b: bool)
        ensures
            b == self.spec_carved(pole),
    {
        match pole {
            Pole::N => self.north,
            Pole::E => self.east,
            Pole::S => self.south,
            Pole::W => self.west,
        }
    }
}

} // verus!
