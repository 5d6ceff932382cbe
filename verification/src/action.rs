//! The player-action gateway: validated player or AI intents become stack
//! pushes.
//!
//! An action is silently dropped — by design, the UI layer is responsible
//! for preventing illegal input — whenever the frame stack is non-empty,
//! the acting player is not the current player, or the turn flow is not
//! parked at the player-action stage.  An attack additionally requires a
//! living source unit with action points and resolves the source's
//! basic-attack ability: an attack is not a primitive event, it is sugar
//! for using that ability.

use vstd::prelude::*;
use crate::battle::{
    attack_ability_upto, pushed_events, Battle, BattleFlow,
};
use crate::events::{BattleEvent, PlayerEndTurn, SummonUnit, UnitStartAbility};
use crate::ids::{AbilityId, CardId, PlayerId, UnitId};
use crate::position::Position;

verus! {

/// One externally-sourced player intent.
#[derive(Debug, Clone, Copy, PartialEq, Eq, Structural)]
pub enum PlayerAction {
    EndTurn,
    UseAbility { ability: AbilityId, source: UnitId, target: UnitId },
    Attack { source: UnitId, target: UnitId },
    SummonUnit { card: CardId, position: Position },
}

/// A player intent together with the acting player.
#[derive(Debug, Clone, Copy, PartialEq, Eq, Structural)]
pub struct PlayerActionEvent {
    pub player_id: PlayerId,
    pub action: PlayerAction,
}

/// Whether the gateway accepts any action at all right now: the stack has
/// drained, the acting player is the current player, and the flow is
/// parked at the player-action stage.
pub open spec fn action_allowed(pre: Battle, ev: PlayerActionEvent) -> bool {
    &&& pre.stacks@.len() == 0
    &&& ev.player_id == pre.current_player_index
    &&& pre.stage == BattleFlow::PlayerAction
}

/// Exactly which frames an intent pushes.  A rejected intent — wrong
/// moment, an invalid reference, a dead or exhausted attacker, a missing
/// basic-attack ability — pushes nothing.  A use-ability or attack frame
/// is never pushed with a dead source unit.
pub open spec fn action_events(pre: Battle, ev: PlayerActionEvent) -> Seq<BattleEvent> {
    if !action_allowed(pre, ev) {
        Seq::<BattleEvent>::empty()
    } else {
        match ev.action {
            PlayerAction::EndTurn => seq![
                BattleEvent::PlayerEndTurn(PlayerEndTurn { player: ev.player_id }),
            ],
            PlayerAction::UseAbility { ability, source, target } => {
                if ability < pre.abilities.len() && source < pre.units.len() && target
                    < pre.units.len() && !pre.units@[source as int].is_dead {
                    seq![
                        BattleEvent::UnitStartAbility(
                            UnitStartAbility { ability, source, target },
                        ),
                    ]
                } else {
                    Seq::<BattleEvent>::empty()
                }
            },
            PlayerAction::Attack { source, target } => {
                if source < pre.units.len() && target < pre.units.len() && !pre.units@[source
                    as int].is_dead && pre.units@[source as int].ap > 0 {
                    match attack_ability_upto(pre.abilities@, source, pre.abilities@.len() as int) {
                        Option::Some(a) => seq![
                            BattleEvent::UnitStartAbility(
                                UnitStartAbility { ability: a, source, target },
                            ),
                        ],
                        Option::None => Seq::<BattleEvent>::empty(),
                    }
                } else {
                    Seq::<BattleEvent>::empty()
                }
            },
            PlayerAction::SummonUnit { card, position } => {
                if card < pre.cards.len() && position.player_id < pre.players.len() {
                    seq![BattleEvent::SummonUnit(SummonUnit { card, position })]
                } else {
                    Seq::<BattleEvent>::empty()
                }
            },
        }
    }
}

impl Battle {
    /// Translates one validated player intent into stack pushes, or drops
    /// it silently when it is not legal right now.
    pub fn player_event_system(&mut self, ev: PlayerActionEvent)
        requires
            old(self).wf(),
        ensures
            final(self).wf(),
            final(self).stage == old(self).stage,
            final(self).players == old(self).players,
            final(self).units == old(self).units,
            final(self).abilities == old(self).abilities,
            final(self).cards == old(self).cards,
            final(self).current_player_index == old(self).current_player_index,
            pushed_events(old(self).stacks@, final(self).stacks@, action_events(*old(self), ev)),
    {
        proof {
            assert(self.stacks@.subrange(0, self.stacks@.len() as int) =~= self.stacks@);
        }
        if self.stacks.len() != 0 {
            return ;
        }
        if ev.player_id != self.current_player_index {
            return ;
        }
        if !(self.stage == BattleFlow::PlayerAction) {
            return ;
        }
        match ev.action {
            PlayerAction::EndTurn => {
                self.push_frame(
                    BattleEvent::PlayerEndTurn(PlayerEndTurn { player: ev.player_id }),
                );
            },
            PlayerAction::UseAbility { ability, source, target } => {
                if ability < self.abilities.len() && source < self.units.len() && target
                    < self.units.len() && !self.units[source].is_dead {
                    self.push_frame(
                        BattleEvent::UnitStartAbility(
                            UnitStartAbility { ability, source, target },
                        ),
                    );
                }
            },
            PlayerAction::Attack { source, target } => {
                if source < self.units.len() && target < self.units.len()
                    && !self.units[source].is_dead && self.units[source].ap > 0 {
                    let ab = self.find_attack_ability(source);
                    match ab {
                        Option::Some(a) => {
                            self.push_frame(
                                BattleEvent::UnitStartAbility(
                                    UnitStartAbility { ability: a, source, target },
                                ),
                            );
                        },
                        Option::None => {},
                    }
                }
            },
            PlayerAction::SummonUnit { card, position } => {
                if card < self.cards.len() && position.player_id < self.players.len() {
                    self.push_frame(BattleEvent::SummonUnit(SummonUnit { card, position }));
                }
            },
        }
    }
}

} // verus!
