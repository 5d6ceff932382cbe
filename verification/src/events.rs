//! The closed set of battle events and their payloads.

use vstd::prelude::*;
use crate::ability::OnBattleEvent;
use crate::ids::{AbilityId, CardId, PlayerId, UnitId};
use crate::position::Position;

verus! {

/// Pre-turn lifecycle event: the acting player's units gain an action point.
#[derive(Debug, Clone, Copy, PartialEq, Eq, Structural)]
pub struct PreTurnStart {
    pub player: PlayerId,
}

/// The acting player's turn starts; resolution pushes the turn's draw.
#[derive(Debug, Clone, Copy, PartialEq, Eq, Structural)]
pub struct TurnStart {
    pub player: PlayerId,
}

/// The acting player's turn ends.
#[derive(Debug, Clone, Copy, PartialEq, Eq, Structural)]
pub struct TurnEnd {
    pub player: PlayerId,
}

/// After-turn lifecycle event.
#[derive(Debug, Clone, Copy, PartialEq, Eq, Structural)]
pub struct PostTurnEnd {
    pub player: PlayerId,
}

/// The current player changes to `next_index`.
#[derive(Debug, Clone, Copy, PartialEq, Eq, Structural)]
pub struct PlayerChange {
    pub next_index: PlayerId,
}

/// The player draws `c` cards from the top of the deck.
#[derive(Debug, Clone, Copy, PartialEq, Eq, Structural)]
pub struct PlayerDraw {
    pub player: PlayerId,
    pub c: i32,
}

/// The player declares the end of the turn.
#[derive(Debug, Clone, Copy, PartialEq, Eq, Structural)]
pub struct PlayerEndTurn {
    pub player: PlayerId,
}

/// `target` takes `value` damage dealt by `source`.
#[derive(Debug, Clone, Copy, PartialEq, Eq, Structural)]
pub struct UnitHurt {
    pub source: UnitId,
    pub target: UnitId,
    pub value: i32,
}

/// `dead` dies; `killer` is credited with the kill.
#[derive(Debug, Clone, Copy, PartialEq, Eq, Structural)]
pub struct UnitDie {
    pub dead: UnitId,
    pub killer: UnitId,
}

/// `source` starts using `ability` on `target`, paying its action points.
#[derive(Debug, Clone, Copy, PartialEq, Eq, Structural)]
pub struct UnitStartAbility {
    pub ability: AbilityId,
    pub source: UnitId,
    pub target: UnitId,
}

/// Mutual combat between `source` and `target`.
#[derive(Debug, Clone, Copy, PartialEq, Eq, Structural)]
pub struct UnitCombat {
    pub source: UnitId,
    pub target: UnitId,
}

/// `ability` takes effect: its effect list expands into frames.
#[derive(Debug, Clone, Copy, PartialEq, Eq, Structural)]
pub struct AbilityStart {
    pub ability: AbilityId,
    pub source: UnitId,
    pub target: UnitId,
}

/// `card` is summoned from the hand onto the board at `position`.
#[derive(Debug, Clone, Copy, PartialEq, Eq, Structural)]
pub struct SummonUnit {
    pub card: CardId,
    pub position: Position,
}

/// One battle event: the closed taxonomy the frame stack resolves.
#[derive(Debug, Clone, Copy, PartialEq, Eq, Structural)]
pub enum BattleEvent {
    PreTurnStart(PreTurnStart),
    TurnStart(TurnStart),
    TurnEnd(TurnEnd),
    PostTurnEnd(PostTurnEnd),
    PlayerChange(PlayerChange),
    PlayerDraw(PlayerDraw),
    PlayerEndTurn(PlayerEndTurn),
    UnitHurt(UnitHurt),
    UnitDie(UnitDie),
    UnitStartAbility(UnitStartAbility),
    UnitCombat(UnitCombat),
    AbilityStart(AbilityStart),
    SummonUnit(SummonUnit),
}

/// Whether a trigger listening for `on` reacts to the event `event`,
/// discriminated by event variant only, never by payload.
pub open spec fn spec_match_event(on: OnBattleEvent, event: BattleEvent) -> bool {
    match on {
        OnBattleEvent::OnTurnStart => event is TurnStart,
        OnBattleEvent::OnTurnEnd => event is TurnEnd,
        OnBattleEvent::OnPlayerChange => event is PlayerChange,
        OnBattleEvent::OnPlayerDraw => event is PlayerDraw,
        OnBattleEvent::OnUnitHurt => event is UnitHurt,
        OnBattleEvent::OnUnitDie => event is UnitDie,
        OnBattleEvent::OnAbilityStart => event is AbilityStart,
    }
}

impl OnBattleEvent {
    /// Whether this trigger kind reacts to `event`.
    pub fn match_event(&self, event: &BattleEvent) -> (r: bool)
        ensures
            r == spec_match_event(*self, *event),
    {
        match self {
            OnBattleEvent::OnTurnStart => matches!(event, BattleEvent::TurnStart(_)),
            OnBattleEvent::OnTurnEnd => matches!(event, BattleEvent::TurnEnd(_)),
            OnBattleEvent::OnPlayerChange => matches!(event, BattleEvent::PlayerChange(_)),
            OnBattleEvent::OnPlayerDraw => matches!(event, BattleEvent::PlayerDraw(_)),
            OnBattleEvent::OnUnitHurt => matches!(event, BattleEvent::UnitHurt(_)),
            OnBattleEvent::OnUnitDie => matches!(event, BattleEvent::UnitDie(_)),
            OnBattleEvent::OnAbilityStart => matches!(event, BattleEvent::AbilityStart(_)),
        }
    }
}

} // verus!
