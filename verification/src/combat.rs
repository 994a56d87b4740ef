use vstd::prelude::*;

use crate::character::Battle;
use crate::equipment::WeaponSlot;
use crate::errors::ErrorWrapper;
use crate::input::PlayerAction;

verus! {

/// What a combatant chooses on its turn: to attack with the weapon in a slot,
/// or to flee.
#[derive(Clone, Copy, Debug)]
pub enum CombatTurnChoiceEventType {
    ATTACK(WeaponSlot),
    FLEE,
}

/// A fight and its state.
pub struct Combat {
    pub battle: Battle,
}

/// The messages a turn of combat produces.
#[derive(Clone)]
pub struct CombatResult {
    pub messages: Vec<String>,
}

/// A combat choice and, once the turn is played, its result.
#[derive(Clone)]
pub struct CombatCallbackData {
    pub choice: CombatTurnChoiceEventType,
    pub result: Option<CombatResult>,
}

/// A command that takes actions on behalf of the player and handles the input
/// that comes with them, such as looking around or opening things.
pub trait CommandPlayerAction<Input> {
    fn can_handle_action(&self, action: PlayerAction) -> bool;

    fn handle_input(&mut self, input: Option<&Input>) -> Result<(), ErrorWrapper>;
}

} // verus!
