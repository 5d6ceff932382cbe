//! Card positions: zone, board coordinates and stacking order.

use vstd::prelude::*;
use crate::ids::PlayerId;

verus! {

/// One of the four zones a card can occupy, per player.
#[derive(Debug, Clone, Copy, PartialEq, Eq, Structural)]
pub enum PositionType {
    Deck,
    Hand,
    Board,
    Grave,
}

/// Where a card stands: its owner's side, the zone, board coordinates for
/// the board zone, and the stacking order `z` within the `(player, zone)`
/// pair.  Stacking orders are kept dense: the `z` values of the cards in one
/// zone of one player are exactly `0..count-1`.
#[derive(Debug, Clone, Copy, PartialEq, Eq, Structural)]
pub struct Position {
    pub x: i32,
    pub y: i32,
    pub z: i32,
    pub face_up: bool,
    pub player_id: PlayerId,
    pub position_type: PositionType,
}

} // verus!
