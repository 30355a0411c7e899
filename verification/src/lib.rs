//! The logic of a tile-world game, verified: a weighted tile grid with
//! bounds-checked access and eight-way adjacency, a loader that reads a grid
//! from text, lowest-cost route search between two cells, and the small
//! decisions the game takes on key presses and sprite sheets.

pub mod adjacency;
pub mod components;
pub mod controls;
pub mod grid;
pub mod items;
pub mod loader;
pub mod render;
pub mod search;
pub mod sprites;
pub mod tile;

pub use crate::adjacency::CoordIterator;
pub use crate::components::{HotbarGui, Loose, ProposedMoveType, SpriteAnimationDirection};
pub use crate::grid::{Grid, GridView};
pub use crate::items::Item;
pub use crate::loader::generate_ascii_map;
pub use crate::tile::{MyError, Point, Tile};
