//! Engine-wide laws, stated and proved over the contracts of the battle
//! engine.
//!
//! Each proof function here is part of the library's statement: it pins
//! down a guarantee that spans several functions of the engine, over the
//! same specification functions their own contracts use.

use vstd::prelude::*;
use crate::ability::{AbilityType, OnBattleEvent, TriggerCondition, UnitVar};
use crate::action::{action_events, PlayerActionEvent};
use crate::arith::{clip_i32, damage_of};
use crate::battle::{
    action_unit_of, ai_attack_events_upto, card_in_zone, conditions_hold, first_firing, flow_rel,
    is_fresh_frame, resolve_rel, trigger_fires, trigger_matches, trigger_pushed_rel, update_rel,
    zone_has_z, Battle,
};
use crate::card::CardInstance;
use crate::events::{BattleEvent, UnitDie, UnitHurt};
use crate::ids::{PlayerId, UnitId};
use crate::position::PositionType;
use crate::unit::UnitInstance;

verus! {

/// The turn flow never pushes a new phase event — indeed, changes nothing
/// at all — while the frame stack is non-empty: the stack drains to empty
/// before the flow advances.
pub proof fn lemma_flow_waits_for_drain(pre: Battle, post: Battle)
    requires
        flow_rel(pre, post),
        pre.stacks@.len() > 0,
    ensures
        post == pre,
{
}

/// Stacking-order density: in every zone of every player of a well-formed
/// battle, the set of `z` values of the cards in that zone is exactly
/// `0..count`, with no duplicates.  Since every engine step preserves
/// well-formedness, this holds after any event resolution.
pub proof fn lemma_stacking_density(b: Battle, p: PlayerId, zt: PositionType)
    requires
        b.wf(),
    ensures
        forall|v: int| 0 <= v < b.zone_count(p, zt) <==> #[trigger] zone_has_z(b, p, zt, v),
        forall|i: int, j: int|
            0 <= i < b.cards@.len() && 0 <= j < b.cards@.len() && i != j && card_in_zone(
                #[trigger] b.cards@[i],
                p,
                zt,
            ) && card_in_zone(#[trigger] b.cards@[j], p, zt) ==> b.cards@[i].position.z
                != b.cards@[j].position.z,
{
    crate::battle::lemma_zone_surjective(b, p, zt);
    assert forall|v: int| #[trigger] zone_has_z(b, p, zt, v) implies 0 <= v < b.zone_count(
        p,
        zt,
    ) by {
        let i = choose|i: int|
            0 <= i < b.cards@.len() && card_in_zone(#[trigger] b.cards@[i], p, zt)
                && b.cards@[i].position.z == v;
        assert(0 <= b.cards@[i].position.z < b.zone_count(
            b.cards@[i].position.player_id,
            b.cards@[i].position.position_type,
        ));
    }
    assert forall|i: int, j: int|
        0 <= i < b.cards@.len() && 0 <= j < b.cards@.len() && i != j && card_in_zone(
            #[trigger] b.cards@[i],
            p,
            zt,
        ) && card_in_zone(#[trigger] b.cards@[j], p, zt) implies b.cards@[i].position.z
        != b.cards@[j].position.z by {
        assert(card_in_zone(
            b.cards@[i],
            b.cards@[j].position.player_id,
            b.cards@[j].position.position_type,
        ));
    }
}

/// Simultaneous combat: resolving a combat frame pushes both hurt frames
/// with damage figures computed from the statistics both units had when
/// the combat expanded — attack minus defense, never negative — before
/// either hurt frame mutates any state.  The attacker's incoming damage
/// frame lies on top, so it resolves first.
pub proof fn lemma_combat_snapshots_stats(pre: Battle, post: Battle, source: UnitId, target: UnitId)
    requires
        resolve_rel(
            pre,
            post,
            BattleEvent::UnitCombat(crate::events::UnitCombat { source, target }),
        ),
    ensures
        post.units == pre.units,
        post.stacks@.len() == pre.stacks@.len() + 1,
        is_fresh_frame(
            post.stacks@[post.stacks@.len() - 2],
            BattleEvent::UnitHurt(
                UnitHurt {
                    source,
                    target,
                    value: damage_of(
                        pre.units@[source as int].atk as int,
                        pre.units@[target as int].def as int,
                    ) as i32,
                },
            ),
        ),
        is_fresh_frame(
            post.stacks@.last(),
            BattleEvent::UnitHurt(
                UnitHurt {
                    source: target,
                    target: source,
                    value: damage_of(
                        pre.units@[target as int].atk as int,
                        pre.units@[source as int].def as int,
                    ) as i32,
                },
            ),
        ),
{
    let events = seq![
        BattleEvent::UnitHurt(
            UnitHurt {
                source,
                target,
                value: damage_of(
                    pre.units@[source as int].atk as int,
                    pre.units@[target as int].def as int,
                ) as i32,
            },
        ),
        BattleEvent::UnitHurt(
            UnitHurt {
                source: target,
                target: source,
                value: damage_of(
                    pre.units@[target as int].atk as int,
                    pre.units@[source as int].def as int,
                ) as i32,
            },
        ),
    ];
    assert(is_fresh_frame(post.stacks@[pre.stacks@.len() - 1 + 0], events[0]));
    assert(is_fresh_frame(post.stacks@[pre.stacks@.len() - 1 + 1], events[1]));
}

/// Death cascade: a hurt that brings a living unit's hit points to zero or
/// below pushes the die frame for that unit on top of the stack, so the
/// death — its triggers included — resolves before the stack returns to
/// any frame beneath.
pub proof fn lemma_lethal_hurt_pushes_die(
    pre: Battle,
    post: Battle,
    source: UnitId,
    target: UnitId,
    value: i32,
)
    requires
        target < pre.units@.len(),
        resolve_rel(
            pre,
            post,
            BattleEvent::UnitHurt(UnitHurt { source, target, value }),
        ),
        !pre.units@[target as int].is_dead,
        clip_i32(pre.units@[target as int].hp - value) <= 0,
    ensures
        post.stacks@.len() == pre.stacks@.len(),
        is_fresh_frame(
            post.stacks@.last(),
            BattleEvent::UnitDie(UnitDie { dead: target, killer: source }),
        ),
        post.units@[target as int].hp == clip_i32(pre.units@[target as int].hp - value) as i32,
{
    let die = seq![BattleEvent::UnitDie(UnitDie { dead: target, killer: source })];
    assert(is_fresh_frame(post.stacks@[pre.stacks@.len() - 1 + 0], die[0]));
}

/// Trigger matching for a self-credit-kill trigger: an ability listening
/// for deaths under the condition that the action unit equals the ability
/// unit fires exactly when a unit dies, the credited killer is the
/// ability's own unit, and that unit is still alive — and for no other
/// event.
pub proof fn lemma_kill_credit_trigger(b: Battle, a: int, e: BattleEvent)
    requires
        0 <= a < b.abilities@.len(),
        b.abilities@[a].ability_type matches AbilityType::Trigger(t) && t.event
            == OnBattleEvent::OnUnitDie && t.conditions@ =~= seq![
            TriggerCondition::UnitEq(UnitVar::ActionUnit, UnitVar::AbilityUnit),
        ],
    ensures
        trigger_fires(b, a, e) <==> (e matches BattleEvent::UnitDie(d) && d.killer
            == b.abilities@[a].owner_unit && !b.units@[b.abilities@[a].owner_unit
            as int].is_dead),
{
    let abu = b.abilities@[a].owner_unit;
    match b.abilities@[a].ability_type {
        AbilityType::Trigger(t) => {
            match e {
                BattleEvent::UnitDie(d) => {
                    assert(action_unit_of(b, e, abu) == d.killer);
                    if d.killer == abu && !b.units@[abu as int].is_dead {
                        assert(trigger_matches(b, a, e));
                        assert forall|i: int|
                            0 <= i < t.conditions@.len() implies crate::battle::condition_holds(
                            #[trigger] t.conditions@[i],
                            crate::battle::trigger_unit_of(b, e, abu),
                            action_unit_of(b, e, abu),
                            abu,
                        ) by {
                            assert(t.conditions@[i] == TriggerCondition::UnitEq(
                                UnitVar::ActionUnit,
                                UnitVar::AbilityUnit,
                            ));
                        }
                        assert(conditions_hold(b, a, e));
                    }
                    if trigger_fires(b, a, e) {
                        assert(conditions_hold(b, a, e));
                        assert(crate::battle::condition_holds(
                            t.conditions@[0],
                            crate::battle::trigger_unit_of(b, e, abu),
                            action_unit_of(b, e, abu),
                            abu,
                        ));
                    }
                },
                _ => {
                    assert(!crate::events::spec_match_event(t.event, e));
                    assert(!trigger_matches(b, a, e));
                },
            }
        },
        AbilityType::Active(_) => {
            assert(false);
        },
    }
}

/// Action points only ever increase at pre-turn-start: resolving any
/// other event leaves every unit's action points at or below their old
/// value.  In particular, paying an ability's cost cannot raise them,
/// because well-formedness keeps every cost non-negative.  The engine's
/// other step shapes — starting a frame, pushing a fired trigger, the
/// turn flow, the gateway — leave the unit arena untouched by their own
/// relations, so frame resolution is the only place action points move
/// at all.
pub proof fn lemma_ap_gain_only_pre_turn(pre: Battle, post: Battle, e: BattleEvent, u: int)
    requires
        pre.wf(),
        pre.event_wf(e),
        resolve_rel(pre, post, e),
        0 <= u < pre.units@.len(),
    ensures
        post.units@.len() == pre.units@.len(),
        post.units@[u].ap > pre.units@[u].ap ==> e is PreTurnStart,
{
    match e {
        BattleEvent::UnitStartAbility(x) => {
            assert(pre.ability_wf(x.ability as int));
            let ap0 = pre.units@[x.source as int].ap as int;
            let cost = pre.abilities@[x.ability as int].ap as int;
            assert(clip_i32(ap0 - cost) <= ap0);
        },
        _ => {},
    }
}

/// Idempotent death, trigger path: a use-ability frame pushed because a
/// trigger fired always has a living source unit — a unit already marked
/// dead never appears as its source.
pub proof fn lemma_trigger_push_source_alive(pre: Battle, post: Battle, r: Option<BattleEvent>)
    requires
        update_rel(pre, post, r),
        pre.stacks@.len() > 0,
        pre.stacks@.last().started,
        first_firing(pre, pre.stacks@.last().on_stacks@, pre.stacks@.last().event) is Some,
    ensures
        post.stacks@.last().event matches BattleEvent::UnitStartAbility(x)
            && !pre.units@[x.source as int].is_dead,
{
    let i = first_firing(
        pre,
        pre.stacks@.last().on_stacks@,
        pre.stacks@.last().event,
    )->Some_0;
    assert(trigger_pushed_rel(pre, post, i));
}

/// Idempotent death, gateway path: the gateway never pushes a use-ability
/// frame whose source unit is already dead, for any player intent.
pub proof fn lemma_gateway_source_alive(pre: Battle, ev: PlayerActionEvent, k: int)
    requires
        0 <= k < action_events(pre, ev).len(),
    ensures
        action_events(pre, ev)[k] matches BattleEvent::UnitStartAbility(x)
            ==> !pre.units@[x.source as int].is_dead,
{
}

/// Idempotent death, AI path: the AI's opportunistic attacks never use a
/// dead unit as their source.
pub proof fn lemma_ai_source_alive(
    units: Seq<UnitInstance>,
    cards: Seq<CardInstance>,
    abilities: Seq<crate::ability::AbilityInstance>,
    p: PlayerId,
    n: int,
    k: int,
)
    requires
        n <= units.len(),
        units.len() <= usize::MAX,
        0 <= k < ai_attack_events_upto(units, cards, abilities, p, n).len(),
    ensures
        ai_attack_events_upto(units, cards, abilities, p, n)[k] matches
            BattleEvent::UnitStartAbility(x) ==> !units[x.source as int].is_dead,
    decreases n,
{
    if n > 0 {
        let prefix = ai_attack_events_upto(units, cards, abilities, p, n - 1);
        if k < prefix.len() {
            lemma_ai_source_alive(units, cards, abilities, p, n - 1, k);
            assert(ai_attack_events_upto(units, cards, abilities, p, n)[k] == prefix[k]);
        } else {
            let tail = crate::battle::ai_attack_event(units, cards, abilities, p, n - 1);
            assert(ai_attack_events_upto(units, cards, abilities, p, n)[k] == tail[k
                - prefix.len()]);
            if units[n - 1].owner == p && units[n - 1].ap > 0 && !units[n - 1].is_dead {
            } else {
                assert(tail.len() == 0);
            }
        }
    }
}

} // verus!
