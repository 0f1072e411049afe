//! Compass directions naming a cell's four walls.

use vstd::prelude::*;

verus! {

/// One of the four compass directions. A `Pole` names both a wall of a cell
/// and the direction of the neighbouring cell on the other side of that wall.
#[derive(Clone, Copy, Debug, PartialEq, Eq, Structural)]
pub enum Pole {
    N,
    E,
    S,
    W,
}

impl Pole {
    /// The direction pointing the other way: north and south swap,
    /// east and west swap.
    pub open spec fn spec_opposite(self) -> Pole {
        match self {
            Pole::N => Pole::S,
            Pole::S => Pole::N,
            Pole::E => Pole::W,
            Pole::W => Pole::E,
        }
    }

    /// Returns the opposite direction.
    pub fn opposite(self) -> (r: Pole)
        ensures
            r == self.spec_opposite(),
    {
        match self {
            Pole::N => Pole::S,
            Pole::S => Pole::N,
            Pole::E => Pole::W,
            Pole::W => Pole::E,
        }
    }
}

} // verus!
