//! Players before battle and player instances during battle.

use vstd::prelude::*;
use crate::ids::CardId;

verus! {

/// A player outside battle: the roster a battle is set up from.
#[derive(Debug, Clone)]
pub struct Player {
    pub name: String,
    pub money: i32,
    /// Indices of the loaded cards forming the deck.
    pub decks: Vec<usize>,
    /// Indices of the loaded cards owned but not in the deck.
    pub cards: Vec<usize>,
    /// Index of the loaded card of the player's character.
    pub character_card: usize,
}

/// Who drives a player's actions.
#[derive(Debug, Clone, Copy, PartialEq, Eq, Structural)]
pub enum PlayerController {
    Player,
    Ai,
}

/// A battle-time player instance.
#[derive(Debug, Clone)]
pub struct PlayerInstance {
    pub name: String,
    pub mp: i32,
    /// The card instance of the player's character: when the unit on it
    /// dies, the battle ends.
    pub player_card_instance_id: CardId,
    /// Who drives this player.
    pub controller: PlayerController,
}

} // verus!
