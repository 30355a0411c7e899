//! The kinds of item the game knows.

use vstd::prelude::*;

verus! {

/// A kind of item: its name and the sprite that shows it.
pub struct Item {
    pub name: String,
    pub texture_id: usize,
}

impl Item {
    pub fn new(name: String, texture_id: usize) -> (item: Item)
        ensures
            item.name == name,
            item.texture_id == texture_id,
    {
        Self { name, texture_id }
    }
}

} // verus!
