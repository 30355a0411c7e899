//! Plain data that the game world attaches to its entities.

use vstd::prelude::*;

verus! {

/// Marks something that can be collected: a dropped item, or an item in an
/// inventory or on the hotbar.
#[derive(Debug)]
pub struct Loose {}

/// A slot of the hotbar as it is drawn.
#[derive(Debug)]
pub struct HotbarGui {
    pub slot: usize,
}

/// How an entity asks to move.
#[derive(Debug, PartialEq, Eq, Structural)]
pub enum ProposedMoveType {
    Stop,
    Walk,
    Run,
}

impl ProposedMoveType {
    /// The kind of move that a velocity asks for, given which of its two
    /// components are not zero: an entity that moves along neither axis
    /// stops; one that moves runs when asked to, and walks otherwise.
    pub fn move_type_from_velocity(moves_x: bool, moves_y: bool, run: bool) -> (kind:
        ProposedMoveType)
        ensures
            kind == (if !moves_x && !moves_y {
                ProposedMoveType::Stop
            } else if run {
                ProposedMoveType::Run
            } else {
                ProposedMoveType::Walk
            }),
    {
        match (moves_x || moves_y, run) {
            (true, true) => ProposedMoveType::Run,
            (true, false) => ProposedMoveType::Walk,
            _ => ProposedMoveType::Stop,
        }
    }
}

/// The way a sprite faces.
#[derive(Debug, PartialEq, Eq, Structural)]
pub enum SpriteAnimationDirection {
    Up,
    Down,
    Left,
    Right,
}

} // verus!
