use vstd::prelude::*;

use crate::container::Container;
use crate::map::GameMap;

verus! {

/// A level of the game as the item moves see it: its map, when it has one,
/// and the player's inventory, when there is a player.
#[derive(Debug)]
pub struct Level {
    pub map: Option<GameMap>,
    pub player_inventory: Option<Container>,
}

} // verus!
