//! The value types a grid is made of: cells, coordinates and the write error.

use vstd::prelude::*;

verus! {

/// The marker of open floor, the only terrain that can be walked into.
pub const FLOOR: char = '.';

/// One cell of terrain: a marker that names its kind and the cost of entering it.
#[derive(Clone, Copy, Debug, PartialEq, Eq, Structural)]
pub struct Tile {
    pub id: char,
    pub weight: usize,
}

impl Tile {
    pub fn new(id: char, weight: usize) -> (tile: Tile)
        ensures
            tile.id == id,
            tile.weight == weight,
    {
        Tile { id, weight }
    }

    /// A cell can be walked into exactly when its marker is `FLOOR`.
    pub open spec fn passable(self) -> bool {
        self.id == FLOOR
    }

    pub fn is_passable(&self) -> (open: bool)
        ensures
            open == self.passable(),
    {
        self.id == FLOOR
    }
}

/// A grid coordinate: column `x`, row `y`.
#[derive(Clone, Copy, Debug, PartialEq, Eq, Hash, Structural)]
pub struct Point {
    pub x: usize,
    pub y: usize,
}

impl Point {
    pub fn new(x: usize, y: usize) -> (point: Point)
        ensures
            point.x == x,
            point.y == y,
    {
        Point { x, y }
    }

    /// Whether two coordinates name the same cell.
    pub fn same(&self, other: &Point) -> (equal: bool)
        ensures
            equal == (*self == *other),
    {
        self.x == other.x && self.y == other.y
    }
}

/// Returned when a write names a coordinate outside the grid.
#[derive(Debug)]
pub struct MyError {}

} // verus!
