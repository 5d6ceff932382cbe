//! The battle aggregate: frame stack, turn flow and the resolution engine.
//!
//! A [`Battle`] owns every battle-time instance in index arenas, a stack of
//! [`BattleFrame`]s, and the turn-flow stage.  [`Battle::update`] is the
//! resolution engine: called once per scheduling tick, it performs at most
//! one observable event resolution and returns that event, or `None` while
//! the stack is empty or still draining triggers.  [`Battle::flow_system`]
//! advances the turn-flow state machine, but only on an empty stack.

use vstd::prelude::*;
use crate::ability::{AbilityEffect, AbilityInstance, AbilityType, EffectTarget, TriggerCondition, UnitVar};
use crate::arith::{clip_i32, damage, damage_of, sat_add, sat_sub};
use crate::card::{CardInstance, CardInstanceType};
use crate::events::{AbilityStart, BattleEvent, UnitCombat, UnitDie, UnitHurt};
use crate::ids::{AbilityId, CardId, PlayerId, UnitId};
use crate::player::PlayerInstance;
use crate::position::{Position, PositionType};
use crate::unit::UnitInstance;

verus! {

/// One stack entry: a pending event plus the worklist of triggered-ability
/// instances reacting to it.  `on_stacks` is filled sorted by priority and
/// then treated as a pop-from-end stack, so triggers of equal priority run
/// in the reverse of the arena's iteration order — a deliberate, documented
/// weak guarantee of the engine, not part of any contract.
#[derive(Debug)]
pub struct BattleFrame {
    pub event: BattleEvent,
    pub on_stacks: Vec<AbilityId>,
    pub started: bool,
}

/// The turn-flow stages.
#[derive(Debug, Clone, Copy, PartialEq, Eq, Structural)]
pub enum BattleFlow {
    BattleStart,
    PreTurnStart,
    TurnStart,
    PlayerAction,
    TurnEnd,
    PostTurnEnd,
    PlayerChange,
    BattleEnd,
}

/// The battle aggregate: stage, frame stack and the instance arenas.
#[derive(Debug)]
pub struct Battle {
    pub stage: BattleFlow,
    pub stacks: Vec<BattleFrame>,
    pub players: Vec<PlayerInstance>,
    pub units: Vec<UnitInstance>,
    pub abilities: Vec<AbilityInstance>,
    pub cards: Vec<CardInstance>,
    pub current_player_index: usize,
}

/// Whether `c` stands in the zone `zt` of player `p`.
pub open spec fn card_in_zone(c: CardInstance, p: PlayerId, zt: PositionType) -> bool {
    c.position.player_id == p && c.position.position_type == zt
}

/// How many of the first `n` cards stand in the zone `zt` of player `p`.
pub open spec fn zone_count_upto(
    cards: Seq<CardInstance>,
    p: PlayerId,
    zt: PositionType,
    n: int,
) -> int
    decreases n,
{
    if n <= 0 {
        0
    } else {
        zone_count_upto(cards, p, zt, n - 1) + if card_in_zone(cards[n - 1], p, zt) {
            1int
        } else {
            0int
        }
    }
}

impl Battle {
    /// How many cards stand in the zone `zt` of player `p`.
    pub open spec fn zone_count(self, p: PlayerId, zt: PositionType) -> int {
        zone_count_upto(self.cards@, p, zt, self.cards@.len() as int)
    }

    /// Validity of one event's references into the arenas.
    pub open spec fn event_wf(self, e: BattleEvent) -> bool {
        match e {
            BattleEvent::PreTurnStart(x) => x.player < self.players.len(),
            BattleEvent::TurnStart(x) => x.player < self.players.len(),
            BattleEvent::TurnEnd(x) => x.player < self.players.len(),
            BattleEvent::PostTurnEnd(x) => x.player < self.players.len(),
            BattleEvent::PlayerChange(x) => x.next_index < self.players.len(),
            BattleEvent::PlayerDraw(x) => x.player < self.players.len(),
            BattleEvent::PlayerEndTurn(x) => x.player < self.players.len(),
            BattleEvent::UnitHurt(x) => x.source < self.units.len() && x.target
                < self.units.len(),
            BattleEvent::UnitDie(x) => x.dead < self.units.len() && x.killer < self.units.len(),
            BattleEvent::UnitStartAbility(x) => x.ability < self.abilities.len() && x.source
                < self.units.len() && x.target < self.units.len(),
            BattleEvent::UnitCombat(x) => x.source < self.units.len() && x.target
                < self.units.len(),
            BattleEvent::AbilityStart(x) => x.ability < self.abilities.len() && x.source
                < self.units.len() && x.target < self.units.len(),
            BattleEvent::SummonUnit(x) => x.card < self.cards.len() && x.position.player_id
                < self.players.len(),
        }
    }

    /// Validity of one frame: a well-formed event, and a worklist that only
    /// holds trigger-ability instances.
    pub open spec fn frame_wf(self, f: BattleFrame) -> bool {
        &&& self.event_wf(f.event)
        &&& forall|i: int|
            0 <= i < f.on_stacks@.len() ==> {
                &&& (#[trigger] f.on_stacks@[i]) < self.abilities.len()
                &&& self.abilities@[f.on_stacks@[i] as int].ability_type is Trigger
            }
    }

    /// Validity of the unit instance at index `u`.
    pub open spec fn unit_wf(self, u: int) -> bool {
        let unit = self.units@[u];
        &&& unit.owner < self.players.len()
        &&& unit.card < self.cards.len()
        &&& self.cards@[unit.card as int].card_type == CardInstanceType::UnitInstance(u as UnitId)
        &&& card_owner_matches(self.cards@[unit.card as int], unit.owner)
        &&& forall|i: int|
            0 <= i < unit.abilities@.len() ==> (#[trigger] unit.abilities@[i])
                < self.abilities.len()
    }

    /// Validity of the card instance at index `c`.
    pub open spec fn card_wf(self, c: int) -> bool {
        let card = self.cards@[c];
        &&& card.position.player_id < self.players.len()
        &&& match card.card_type {
            CardInstanceType::UnitInstance(u) => u < self.units.len() && self.units@[u as int].card
                == c,
        }
    }

    /// Validity of the ability instance at index `a`: its owner exists,
    /// and its action-point cost is never negative — so spending it can
    /// never raise the owner's action points.
    pub open spec fn ability_wf(self, a: int) -> bool {
        &&& self.abilities@[a].owner_unit < self.units.len()
        &&& self.abilities@[a].ap >= 0
    }

    /// Validity of the player instance at index `p`.
    pub open spec fn player_wf(self, p: int) -> bool {
        self.players@[p].player_card_instance_id < self.cards.len()
    }

    /// The unit instance on the player's character card.
    pub open spec fn primary_unit(self, p: int) -> UnitId {
        match self.cards@[self.players@[p].player_card_instance_id as int].card_type {
            CardInstanceType::UnitInstance(u) => u,
        }
    }

    /// Stacking orders are dense: within each `(player, zone)` pair, the `z`
    /// values of the cards are distinct and lie in `0..count`.  Together
    /// those two facts pin the `z` set to exactly `0..count`.
    pub open spec fn zones_dense(self) -> bool {
        &&& forall|i: int, j: int|
            0 <= i < self.cards@.len() && 0 <= j < self.cards@.len() && i != j && card_in_zone(
                #[trigger] self.cards@[i],
                self.cards@[j].position.player_id,
                self.cards@[j].position.position_type,
            ) ==> self.cards@[i].position.z != (#[trigger] self.cards@[j]).position.z
        &&& forall|i: int|
            0 <= i < self.cards@.len() ==> 0 <= (#[trigger] self.cards@[i]).position.z
                < self.zone_count(
                self.cards@[i].position.player_id,
                self.cards@[i].position.position_type,
            )
    }

    /// Well-formedness of the whole battle: every stored index is valid,
    /// units and cards reference each other consistently, every frame on the
    /// stack is well formed, and stacking orders are dense.
    pub open spec fn wf(self) -> bool {
        &&& self.players.len() >= 1
        &&& self.cards.len() < 0x4000_0000
        &&& self.current_player_index < self.players.len()
        &&& forall|p: int| 0 <= p < self.players@.len() ==> #[trigger] self.player_wf(p)
        &&& forall|u: int| 0 <= u < self.units@.len() ==> #[trigger] self.unit_wf(u)
        &&& forall|c: int| 0 <= c < self.cards@.len() ==> #[trigger] self.card_wf(c)
        &&& forall|a: int| 0 <= a < self.abilities@.len() ==> #[trigger] self.ability_wf(a)
        &&& forall|k: int|
            0 <= k < self.stacks@.len() ==> self.frame_wf(#[trigger] self.stacks@[k])
        &&& self.zones_dense()
    }
}

/// Whether the card's position lies on the side of player `p`.
pub open spec fn card_owner_matches(c: CardInstance, p: PlayerId) -> bool {
    c.position.player_id == p
}

/// A frame freshly pushed for `e`: empty worklist, not yet started.
pub open spec fn is_fresh_frame(f: BattleFrame, e: BattleEvent) -> bool {
    &&& f.event == e
    &&& f.on_stacks@ == Seq::<AbilityId>::empty()
    &&& f.started == false
}

/// The stack `post` is `base` with fresh frames for `events` pushed, in
/// order (so the last of `events` is the new top).
pub open spec fn pushed_events(
    base: Seq<BattleFrame>,
    post: Seq<BattleFrame>,
    events: Seq<BattleEvent>,
) -> bool {
    &&& post.len() == base.len() + events.len()
    &&& post.subrange(0, base.len() as int) == base
    &&& forall|k: int|
        0 <= k < events.len() ==> is_fresh_frame(
            post[base.len() + k],
            #[trigger] events[k],
        )
}

/// Whether two unit instances agree on every field the battle's
/// well-formedness reads: the owner, the card back-reference and the
/// ability list.  Statistic changes (hit points, action points, the death
/// mark, status counters) keep this relation.
pub open spec fn unit_refs_eq(a: UnitInstance, b: UnitInstance) -> bool {
    &&& a.owner == b.owner
    &&& a.card == b.card
    &&& a.abilities@ == b.abilities@
}

/// Well-formedness is preserved by steps that only change unit statistics,
/// the stage, and the stack — provided every frame on the new stack was
/// well formed for the old battle.
pub proof fn lemma_wf_preserved(pre: Battle, post: Battle)
    requires
        pre.wf(),
        post.players == pre.players,
        post.abilities == pre.abilities,
        post.cards == pre.cards,
        post.current_player_index < post.players.len(),
        post.units@.len() == pre.units@.len(),
        forall|u: int|
            0 <= u < post.units@.len() ==> unit_refs_eq(
                #[trigger] post.units@[u],
                pre.units@[u],
            ),
        forall|k: int| 0 <= k < post.stacks@.len() ==> pre.frame_wf(#[trigger] post.stacks@[k]),
    ensures
        post.wf(),
{
    assert forall|p: int| 0 <= p < post.players@.len() implies #[trigger] post.player_wf(p) by {
        assert(pre.player_wf(p));
    }
    assert forall|u: int| 0 <= u < post.units@.len() implies #[trigger] post.unit_wf(u) by {
        assert(pre.unit_wf(u));
        assert(unit_refs_eq(post.units@[u], pre.units@[u]));
    }
    assert forall|c: int| 0 <= c < post.cards@.len() implies #[trigger] post.card_wf(c) by {
        assert(pre.card_wf(c));
        match post.cards@[c].card_type {
            CardInstanceType::UnitInstance(u) => {
                assert(unit_refs_eq(post.units@[u as int], pre.units@[u as int]));
            },
        }
    }
    assert forall|a: int| 0 <= a < post.abilities@.len() implies #[trigger] post.ability_wf(
        a,
    ) by {
        assert(pre.ability_wf(a));
    }
    assert forall|k: int| 0 <= k < post.stacks@.len() implies post.frame_wf(
        #[trigger] post.stacks@[k],
    ) by {
        assert(pre.frame_wf(post.stacks@[k]));
    }
    assert(post.zones_dense()) by {
        assert(pre.zones_dense());
        assert(post.cards@ == pre.cards@);
        assert forall|i: int|
            0 <= i < post.cards@.len() implies 0 <= (#[trigger] post.cards@[i]).position.z
            < post.zone_count(
            post.cards@[i].position.player_id,
            post.cards@[i].position.position_type,
        ) by {
            assert(0 <= pre.cards@[i].position.z < pre.zone_count(
                pre.cards@[i].position.player_id,
                pre.cards@[i].position.position_type,
            ));
        }
    }
}

/// A prefix count of zone membership lies between zero and the prefix
/// length.
pub proof fn lemma_zone_count_bounds(cards: Seq<CardInstance>, p: PlayerId, zt: PositionType, n: int)
    requires
        n <= cards.len(),
    ensures
        0 <= zone_count_upto(cards, p, zt, n) <= if n >= 0 {
            n
        } else {
            0
        },
    decreases n,
{
    if n > 0 {
        lemma_zone_count_bounds(cards, p, zt, n - 1);
    }
}

/// If two card sequences agree on zone membership everywhere except
/// possibly at index `c`, their zone counts differ exactly by the
/// membership change at `c`.
pub proof fn lemma_zone_count_almost_same(
    pre: Seq<CardInstance>,
    post: Seq<CardInstance>,
    c: int,
    p: PlayerId,
    zt: PositionType,
    n: int,
)
    requires
        post.len() == pre.len(),
        n <= pre.len(),
        forall|i: int|
            0 <= i < pre.len() && i != c ==> (card_in_zone(#[trigger] post[i], p, zt)
                <==> card_in_zone(pre[i], p, zt)),
    ensures
        zone_count_upto(post, p, zt, n) == zone_count_upto(pre, p, zt, n) + if 0 <= c < n {
            (if card_in_zone(post[c], p, zt) {
                1int
            } else {
                0int
            }) - (if card_in_zone(pre[c], p, zt) {
                1int
            } else {
                0int
            })
        } else {
            0int
        },
    decreases n,
{
    if n > 0 {
        lemma_zone_count_almost_same(pre, post, c, p, zt, n - 1);
    }
}

/// The card `x` with its position replaced.
pub open spec fn card_with_position(x: CardInstance, pos: crate::position::Position) -> CardInstance {
    CardInstance { position: pos, ..x }
}

/// Moving card `c` out of its zone into the zone `dest` at coordinates
/// `(nx, ny)`: the card is appended at the end of the destination's
/// stacking order, and every card above it in the source zone shifts down
/// by one, so both orders stay dense.
pub open spec fn card_move_rel(
    pre: Seq<CardInstance>,
    post: Seq<CardInstance>,
    c: int,
    dest: PositionType,
    nx: i32,
    ny: i32,
) -> bool {
    let p = pre[c].position.player_id;
    let src = pre[c].position.position_type;
    let z0 = pre[c].position.z;
    let dest_cnt = zone_count_upto(pre, p, dest, pre.len() as int) - if src == dest {
        1int
    } else {
        0int
    };
    &&& post.len() == pre.len()
    &&& post[c] == card_with_position(
        pre[c],
        Position {
            x: nx,
            y: ny,
            z: dest_cnt as i32,
            face_up: pre[c].position.face_up,
            player_id: p,
            position_type: dest,
        },
    )
    &&& forall|i: int|
        0 <= i < pre.len() && i != c ==> #[trigger] post[i] == (if card_in_zone(pre[i], p, src)
            && pre[i].position.z > z0 {
            card_with_position(
                pre[i],
                Position { z: (pre[i].position.z - 1) as i32, ..pre[i].position },
            )
        } else {
            pre[i]
        })
}

/// A zone move preserves well-formedness, density included.
pub proof fn lemma_wf_after_move(pre: Battle, post: Battle, c: int, dest: PositionType, nx: i32, ny: i32)
    requires
        pre.wf(),
        0 <= c < pre.cards@.len(),
        card_move_rel(pre.cards@, post.cards@, c, dest, nx, ny),
        post.stage == pre.stage,
        post.stacks == pre.stacks,
        post.players == pre.players,
        post.units == pre.units,
        post.abilities == pre.abilities,
        post.current_player_index == pre.current_player_index,
    ensures
        post.wf(),
{
    let cards0 = pre.cards@;
    let cards1 = post.cards@;
    let n = cards0.len() as int;
    let p = cards0[c].position.player_id;
    let src = cards0[c].position.position_type;
    let z0 = cards0[c].position.z;
    assert forall|p2: PlayerId, zt2: PositionType| #[trigger] zone_count_upto(cards1, p2, zt2, n)
        == zone_count_upto(cards0, p2, zt2, n) + (if card_in_zone(cards1[c], p2, zt2) {
        1int
    } else {
        0int
    }) - (if card_in_zone(cards0[c], p2, zt2) {
        1int
    } else {
        0int
    }) by {
        lemma_zone_count_almost_same(cards0, cards1, c, p2, zt2, n);
    }
    assert forall|p2: PlayerId, zt2: PositionType| 0 <= #[trigger] zone_count_upto(
        cards0,
        p2,
        zt2,
        n,
    ) <= n by {
        lemma_zone_count_bounds(cards0, p2, zt2, n);
    }
    // density bounds
    assert forall|i: int|
        0 <= i < cards1.len() implies 0 <= (#[trigger] cards1[i]).position.z < zone_count_upto(
        cards1,
        cards1[i].position.player_id,
        cards1[i].position.position_type,
        n,
    ) by {
        assert(0 <= cards0[i].position.z < zone_count_upto(
            cards0,
            cards0[i].position.player_id,
            cards0[i].position.position_type,
            n,
        ));
        if i != c {
            assert(0 <= cards0[c].position.z < zone_count_upto(cards0, p, src, n));
        }
    }
    // density distinctness
    assert forall|i: int, j: int|
        0 <= i < cards1.len() && 0 <= j < cards1.len() && i != j && card_in_zone(
            #[trigger] cards1[i],
            cards1[j].position.player_id,
            cards1[j].position.position_type,
        ) implies cards1[i].position.z != (#[trigger] cards1[j]).position.z by {
        assert(0 <= cards0[i].position.z < zone_count_upto(
            cards0,
            cards0[i].position.player_id,
            cards0[i].position.position_type,
            n,
        ));
        assert(0 <= cards0[j].position.z < zone_count_upto(
            cards0,
            cards0[j].position.player_id,
            cards0[j].position.position_type,
            n,
        ));
        assert(0 <= cards0[c].position.z < zone_count_upto(cards0, p, src, n));
        if card_in_zone(cards0[i], cards0[j].position.player_id, cards0[j].position.position_type) {
            assert(cards0[i].position.z != cards0[j].position.z);
        }
    }
    // the untouched clauses
    assert forall|q: int| 0 <= q < post.players@.len() implies #[trigger] post.player_wf(q) by {
        assert(pre.player_wf(q));
    }
    assert forall|u: int| 0 <= u < post.units@.len() implies #[trigger] post.unit_wf(u) by {
        assert(pre.unit_wf(u));
        let cd = pre.units@[u].card as int;
        if cd == c {
        } else {
            assert(cards1[cd] == (if card_in_zone(cards0[cd], p, src) && cards0[cd].position.z
                > z0 {
                card_with_position(
                    cards0[cd],
                    Position {
                        z: (cards0[cd].position.z - 1) as i32,
                        ..cards0[cd].position
                    },
                )
            } else {
                cards0[cd]
            }));
        }
    }
    assert forall|i: int| 0 <= i < post.cards@.len() implies #[trigger] post.card_wf(i) by {
        assert(pre.card_wf(i));
    }
    assert forall|a: int| 0 <= a < post.abilities@.len() implies #[trigger] post.ability_wf(
        a,
    ) by {
        assert(pre.ability_wf(a));
    }
    assert forall|k: int| 0 <= k < post.stacks@.len() implies post.frame_wf(
        #[trigger] post.stacks@[k],
    ) by {
        assert(pre.frame_wf(pre.stacks@[k]));
    }
}

/// The unit `u` with its hit points replaced.
pub open spec fn unit_with_hp(u: UnitInstance, hp: i32) -> UnitInstance {
    UnitInstance { hp, ..u }
}

/// The unit `u` with its action points replaced.
pub open spec fn unit_with_ap(u: UnitInstance, ap: i32) -> UnitInstance {
    UnitInstance { ap, ..u }
}

/// The unit `u` marked dead.
pub open spec fn unit_marked_dead(u: UnitInstance) -> UnitInstance {
    UnitInstance { is_dead: true, ..u }
}

/// Pairwise distinctness of stacking orders within the zone `zt` of
/// player `p`, over the whole card sequence.
pub open spec fn zone_z_distinct(cards: Seq<CardInstance>, p: PlayerId, zt: PositionType) -> bool {
    forall|i: int, j: int|
        0 <= i < cards.len() && 0 <= j < cards.len() && i != j && card_in_zone(
            #[trigger] cards[i],
            p,
            zt,
        ) && card_in_zone(#[trigger] cards[j], p, zt) ==> cards[i].position.z
            != cards[j].position.z
}

/// The set of stacking orders of the first `n` cards standing in the zone
/// `zt` of player `p`.
pub open spec fn zone_z_set_upto(
    cards: Seq<CardInstance>,
    p: PlayerId,
    zt: PositionType,
    n: int,
) -> Set<int>
    decreases n,
{
    if n <= 0 {
        Set::empty()
    } else if card_in_zone(cards[n - 1], p, zt) {
        zone_z_set_upto(cards, p, zt, n - 1).insert(cards[n - 1].position.z as int)
    } else {
        zone_z_set_upto(cards, p, zt, n - 1)
    }
}

/// With distinct stacking orders, the zone's set of `z` values is finite,
/// has exactly as many members as the zone has cards, and holds a value
/// exactly when some card in the zone carries it.
pub proof fn lemma_zone_z_set(cards: Seq<CardInstance>, p: PlayerId, zt: PositionType, n: int)
    requires
        n <= cards.len(),
        zone_z_distinct(cards, p, zt),
    ensures
        zone_z_set_upto(cards, p, zt, n).finite(),
        zone_z_set_upto(cards, p, zt, n).len() == zone_count_upto(cards, p, zt, n),
        forall|v: int|
            zone_z_set_upto(cards, p, zt, n).contains(v) <==> exists|i: int|
                0 <= i < n && card_in_zone(#[trigger] cards[i], p, zt) && cards[i].position.z
                    == v,
    decreases n,
{
    if n > 0 {
        lemma_zone_z_set(cards, p, zt, n - 1);
        if card_in_zone(cards[n - 1], p, zt) {
            let z = cards[n - 1].position.z as int;
            assert(!zone_z_set_upto(cards, p, zt, n - 1).contains(z)) by {
                if zone_z_set_upto(cards, p, zt, n - 1).contains(z) {
                    let i = choose|i: int|
                        0 <= i < n - 1 && card_in_zone(#[trigger] cards[i], p, zt)
                            && cards[i].position.z == z;
                    assert(cards[i].position.z != cards[n - 1].position.z);
                }
            }
            assert forall|v: int| zone_z_set_upto(cards, p, zt, n).contains(v) implies exists|
                i: int,
            |
                0 <= i < n && card_in_zone(#[trigger] cards[i], p, zt) && cards[i].position.z
                    == v by {
                if v == z {
                    assert(card_in_zone(cards[n - 1], p, zt) && cards[n - 1].position.z == v);
                }
            }
        }
    }
}

/// Whether some card in the zone `zt` of player `p` carries the stacking
/// order `v`.
pub open spec fn zone_has_z(b: Battle, p: PlayerId, zt: PositionType, v: int) -> bool {
    exists|i: int|
        0 <= i < b.cards@.len() && card_in_zone(#[trigger] b.cards@[i], p, zt)
            && b.cards@[i].position.z == v
}

/// Pigeonhole on one zone: with distinct stacking orders all lying below
/// the zone's count, every slot below the count is occupied by some card.
pub proof fn lemma_zone_surjective(b: Battle, p: PlayerId, zt: PositionType)
    requires
        b.wf(),
    ensures
        forall|v: int| 0 <= v < b.zone_count(p, zt) ==> #[trigger] zone_has_z(b, p, zt, v),
{
    let cards = b.cards@;
    let n = cards.len() as int;
    let cnt = b.zone_count(p, zt);
    assert(zone_z_distinct(cards, p, zt)) by {
        assert forall|i: int, j: int|
            0 <= i < cards.len() && 0 <= j < cards.len() && i != j && card_in_zone(
                #[trigger] cards[i],
                p,
                zt,
            ) && card_in_zone(#[trigger] cards[j], p, zt) implies cards[i].position.z
            != cards[j].position.z by {
            assert(card_in_zone(
                cards[i],
                cards[j].position.player_id,
                cards[j].position.position_type,
            ));
        }
    }
    lemma_zone_z_set(cards, p, zt, n);
    let zset = zone_z_set_upto(cards, p, zt, n);
    assert(zset.len() == cnt);
    assert forall|v: int| 0 <= v < cnt implies #[trigger] zone_has_z(b, p, zt, v) by {
        if !zset.contains(v) {
            let shrunk = vstd::set_lib::set_int_range(0, cnt).remove(v);
            assert(zset.subset_of(shrunk)) by {
                assert forall|w: int| zset.contains(w) implies shrunk.contains(w) by {
                    let i = choose|i: int|
                        0 <= i < n && card_in_zone(#[trigger] cards[i], p, zt)
                            && cards[i].position.z == w;
                    assert(0 <= cards[i].position.z < b.zone_count(
                        cards[i].position.player_id,
                        cards[i].position.position_type,
                    ));
                }
            }
            vstd::set_lib::lemma_int_range(0, cnt);
            assert(vstd::set_lib::set_int_range(0, cnt).contains(v));
            assert(shrunk.len() == cnt - 1);
            vstd::set_lib::lemma_len_subset(zset, shrunk);
            assert(false);
        }
        assert(zset.contains(v));
        let i = choose|i: int|
            0 <= i < n && card_in_zone(#[trigger] cards[i], p, zt) && cards[i].position.z == v;
        assert(0 <= i < b.cards@.len() && card_in_zone(b.cards@[i], p, zt)
            && b.cards@[i].position.z == v);
    }
}

/// The *trigger unit* role of an event: the unit the event happened to.
/// For turn-lifecycle events every listener hears about itself; for
/// player-scoped events the affected player's primary unit stands in; for a
/// summon the summoned card's unit does.
pub open spec fn trigger_unit_of(pre: Battle, e: BattleEvent, ability_unit: UnitId) -> UnitId {
    match e {
        BattleEvent::PreTurnStart(_) => ability_unit,
        BattleEvent::TurnStart(_) => ability_unit,
        BattleEvent::TurnEnd(_) => ability_unit,
        BattleEvent::PostTurnEnd(_) => ability_unit,
        BattleEvent::PlayerChange(x) => pre.primary_unit(x.next_index as int),
        BattleEvent::PlayerDraw(x) => pre.primary_unit(x.player as int),
        BattleEvent::PlayerEndTurn(x) => pre.primary_unit(x.player as int),
        BattleEvent::UnitHurt(x) => x.target,
        BattleEvent::UnitDie(x) => x.dead,
        BattleEvent::UnitStartAbility(x) => x.source,
        BattleEvent::UnitCombat(x) => x.source,
        BattleEvent::AbilityStart(x) => x.source,
        BattleEvent::SummonUnit(x) => match pre.cards@[x.card as int].card_type {
            CardInstanceType::UnitInstance(u) => u,
        },
    }
}

/// The *action unit* role of an event: the unit that caused it.  It
/// differs from the trigger unit only for hurt (the damage dealer) and
/// death (the credited killer).
pub open spec fn action_unit_of(pre: Battle, e: BattleEvent, ability_unit: UnitId) -> UnitId {
    match e {
        BattleEvent::UnitHurt(x) => x.source,
        BattleEvent::UnitDie(x) => x.killer,
        _ => trigger_unit_of(pre, e, ability_unit),
    }
}

/// The unit a condition variable stands for, given the three role bindings.
pub open spec fn unit_var_value(v: UnitVar, tu: UnitId, au: UnitId, abu: UnitId) -> UnitId {
    match v {
        UnitVar::TriggerUnit => tu,
        UnitVar::ActionUnit => au,
        UnitVar::AbilityUnit => abu,
    }
}

/// Whether one condition holds under the given role bindings.
pub open spec fn condition_holds(cond: TriggerCondition, tu: UnitId, au: UnitId, abu: UnitId) -> bool {
    match cond {
        TriggerCondition::UnitEq(v1, v2) => unit_var_value(v1, tu, au, abu) == unit_var_value(
            v2,
            tu,
            au,
            abu,
        ),
    }
}

/// Whether every condition of the trigger ability at index `a` holds for
/// the event `e`.
pub open spec fn conditions_hold(pre: Battle, a: int, e: BattleEvent) -> bool {
    let abu = pre.abilities@[a].owner_unit;
    let tu = trigger_unit_of(pre, e, abu);
    let au = action_unit_of(pre, e, abu);
    match pre.abilities@[a].ability_type {
        AbilityType::Trigger(t) => forall|i: int|
            0 <= i < t.conditions@.len() ==> condition_holds(
                #[trigger] t.conditions@[i],
                tu,
                au,
                abu,
            ),
        AbilityType::Active(_) => false,
    }
}

/// Whether the ability at index `a` is a trigger listening for the kind of
/// `e` whose owner is still alive — a dead unit receives no further
/// ability triggers.
pub open spec fn trigger_matches(pre: Battle, a: int, e: BattleEvent) -> bool {
    &&& 0 <= a < pre.abilities.len()
    &&& match pre.abilities@[a].ability_type {
        AbilityType::Trigger(t) => crate::events::spec_match_event(t.event, e),
        AbilityType::Active(_) => false,
    }
    &&& !pre.units@[pre.abilities@[a].owner_unit as int].is_dead
}

/// Whether the trigger at index `a` fires for `e`: it matches and all its
/// conditions hold.
pub open spec fn trigger_fires(pre: Battle, a: int, e: BattleEvent) -> bool {
    trigger_matches(pre, a, e) && conditions_hold(pre, a, e)
}

/// Two battles with the same arenas (the stack and stage may differ).
pub open spec fn same_arenas(a: Battle, b: Battle) -> bool {
    &&& a.players == b.players
    &&& a.units == b.units
    &&& a.abilities == b.abilities
    &&& a.cards == b.cards
}

/// Trigger firing only reads the arenas, never the stack or the stage.
pub proof fn lemma_trigger_fires_same_arenas(a: Battle, b: Battle, aid: int, e: BattleEvent)
    requires
        same_arenas(a, b),
    ensures
        trigger_fires(a, aid, e) == trigger_fires(b, aid, e),
        trigger_matches(a, aid, e) == trigger_matches(b, aid, e),
{
    assert forall|p: int| a.primary_unit(p) == b.primary_unit(p) by {}
    assert(trigger_unit_of(a, e, a.abilities@[aid].owner_unit) == trigger_unit_of(
        b,
        e,
        b.abilities@[aid].owner_unit,
    ));
    assert(action_unit_of(a, e, a.abilities@[aid].owner_unit) == action_unit_of(
        b,
        e,
        b.abilities@[aid].owner_unit,
    ));
}

/// The index (into `s`) of the first trigger that fires when `s` is popped
/// from its end, if any.
pub open spec fn first_firing(pre: Battle, s: Seq<AbilityId>, e: BattleEvent) -> Option<int>
    decreases s.len(),
{
    if s.len() == 0 {
        Option::None
    } else if trigger_fires(pre, s.last() as int, e) {
        Option::Some(s.len() - 1)
    } else {
        first_firing(pre, s.drop_last(), e)
    }
}

/// A worklist without duplicate ability references.
pub open spec fn no_dups(s: Seq<AbilityId>) -> bool {
    forall|i: int, j: int| 0 <= i < j < s.len() ==> s[i] != s[j]
}

/// A worklist sorted by ability priority, lowest first.
pub open spec fn sorted_by_priority(pre: Battle, s: Seq<AbilityId>) -> bool {
    forall|i: int, j: int|
        0 <= i < j < s.len() ==> pre.abilities@[s[i] as int].priority
            <= pre.abilities@[s[j] as int].priority
}

/// Inserting into a sequence adds exactly one membership.
pub proof fn lemma_seq_insert_contains(s: Seq<AbilityId>, i: int, x: AbilityId)
    requires
        0 <= i <= s.len(),
    ensures
        forall|y: AbilityId| s.insert(i, x).contains(y) <==> (s.contains(y) || y == x),
{
    let t = s.insert(i, x);
    assert forall|y: AbilityId| t.contains(y) implies (s.contains(y) || y == x) by {
        let k = choose|k: int| 0 <= k < t.len() && t[k] == y;
        if k < i {
            assert(s[k] == y);
        } else if k == i {
        } else {
            assert(s[k - 1] == y);
        }
    }
    assert forall|y: AbilityId| (s.contains(y) || y == x) implies t.contains(y) by {
        if s.contains(y) {
            let k = choose|k: int| 0 <= k < s.len() && s[k] == y;
            if k < i {
                assert(t[k] == y);
            } else {
                assert(t[k + 1] == y);
            }
        } else {
            assert(t[i] == y);
        }
    }
}

/// Primary units only depend on the arenas.
pub proof fn lemma_primary_same(a: Battle, b: Battle)
    requires
        same_arenas(a, b),
    ensures
        forall|q: int| a.primary_unit(q) == b.primary_unit(q),
        forall|u: UnitId| #[trigger] is_primary_of_some(a, u) == is_primary_of_some(b, u),
{
    assert forall|u: UnitId| #[trigger] is_primary_of_some(a, u) == is_primary_of_some(b, u) by {
        if is_primary_of_some(a, u) {
            let q = choose|q: int| 0 <= q < a.players.len() && a.primary_unit(q) == u;
            assert(b.primary_unit(q) == u);
        }
        if is_primary_of_some(b, u) {
            let q = choose|q: int| 0 <= q < b.players.len() && b.primary_unit(q) == u;
            assert(a.primary_unit(q) == u);
        }
    }
}

/// The stage and arenas unchanged between two battles.
pub open spec fn non_stack_unchanged(pre: Battle, post: Battle) -> bool {
    &&& post.stage == pre.stage
    &&& post.players == pre.players
    &&& post.units == pre.units
    &&& post.abilities == pre.abilities
    &&& post.cards == pre.cards
    &&& post.current_player_index == pre.current_player_index
}

/// Resolving a turn-start event: the turn's draw (one card) is pushed for
/// the acting player.
pub open spec fn turn_start_rel(pre: Battle, post: Battle, base: Seq<BattleFrame>, p: PlayerId) -> bool {
    &&& non_stack_unchanged(pre, post)
    &&& pushed_events(
        base,
        post.stacks@,
        seq![BattleEvent::PlayerDraw(crate::events::PlayerDraw { player: p, c: 1 })],
    )
}

/// Resolving an event with no direct state effect: it is only emitted for
/// observers.
pub open spec fn emit_only_rel(pre: Battle, post: Battle, base: Seq<BattleFrame>) -> bool {
    &&& non_stack_unchanged(pre, post)
    &&& pushed_events(base, post.stacks@, Seq::<BattleEvent>::empty())
}

/// Resolving a player-change event: the current player index moves to the
/// event's index.
pub open spec fn player_change_rel(
    pre: Battle,
    post: Battle,
    base: Seq<BattleFrame>,
    next_index: PlayerId,
) -> bool {
    &&& post.stage == pre.stage
    &&& post.players == pre.players
    &&& post.units == pre.units
    &&& post.abilities == pre.abilities
    &&& post.cards == pre.cards
    &&& post.current_player_index == next_index
    &&& pushed_events(base, post.stacks@, Seq::<BattleEvent>::empty())
}

/// Resolving a player-end-turn event: the turn flow moves to the turn-end
/// stage.
pub open spec fn end_turn_rel(pre: Battle, post: Battle, base: Seq<BattleFrame>) -> bool {
    &&& post.stage == BattleFlow::TurnEnd
    &&& post.players == pre.players
    &&& post.units == pre.units
    &&& post.abilities == pre.abilities
    &&& post.cards == pre.cards
    &&& post.current_player_index == pre.current_player_index
    &&& pushed_events(base, post.stacks@, Seq::<BattleEvent>::empty())
}

/// What resolving one popped frame does, by event kind.  `pre` is the state
/// with the frame still on top; every case pops it and pushes the fresh
/// frames the event calls for.
pub open spec fn resolve_rel(pre: Battle, post: Battle, e: BattleEvent) -> bool {
    let base = pre.stacks@.drop_last();
    &&& pre.stacks@.len() >= 1
    &&& match e {
        BattleEvent::PreTurnStart(x) => pre_turn_rel(pre, post, base, x.player),
        BattleEvent::TurnStart(x) => turn_start_rel(pre, post, base, x.player),
        BattleEvent::TurnEnd(_) => emit_only_rel(pre, post, base),
        BattleEvent::PostTurnEnd(_) => emit_only_rel(pre, post, base),
        BattleEvent::PlayerChange(x) => player_change_rel(pre, post, base, x.next_index),
        BattleEvent::PlayerDraw(x) => draw_rel(pre, post, base, x.player, x.c),
        BattleEvent::PlayerEndTurn(_) => end_turn_rel(pre, post, base),
        BattleEvent::UnitHurt(x) => hurt_rel(pre, post, base, x.source, x.target, x.value),
        BattleEvent::UnitDie(x) => die_rel(pre, post, base, x.dead, x.killer),
        BattleEvent::UnitStartAbility(x) => start_ability_rel(
            pre,
            post,
            base,
            x.ability,
            x.source,
            x.target,
        ),
        BattleEvent::UnitCombat(x) => combat_rel(pre, post, base, x.source, x.target),
        BattleEvent::AbilityStart(x) => ability_start_rel(
            pre,
            post,
            base,
            x.ability,
            x.source,
            x.target,
        ),
        BattleEvent::SummonUnit(x) => summon_rel(pre, post, base, x.card, x.position),
    }
}

/// Starting the top frame: its worklist gains every matching trigger of an
/// alive owner, sorted by priority, and the frame is marked started.
/// Nothing else changes.
pub open spec fn started_top_rel(pre: Battle, post: Battle) -> bool {
    let top = pre.stacks@.last();
    let newtop = post.stacks@.last();
    &&& non_stack_unchanged(pre, post)
    &&& pre.stacks@.len() >= 1
    &&& post.stacks@.len() == pre.stacks@.len()
    &&& post.stacks@.drop_last() == pre.stacks@.drop_last()
    &&& newtop.event == top.event
    &&& newtop.started == true
    &&& newtop.on_stacks@.len() >= top.on_stacks@.len()
    &&& newtop.on_stacks@.subrange(0, top.on_stacks@.len() as int) == top.on_stacks@
    &&& {
        let added = newtop.on_stacks@.skip(top.on_stacks@.len() as int);
        &&& forall|id: AbilityId| added.contains(id) <==> trigger_matches(pre, id as int, top.event)
        &&& no_dups(added)
        &&& sorted_by_priority(pre, added)
    }
}

/// Popping the top frame's worklist down to its first firing trigger (at
/// index `i`) and pushing a fresh use-ability frame for it: the ability's
/// owner is the source (alive, by the firing conditions) and the event's
/// trigger unit is the target.
pub open spec fn trigger_pushed_rel(pre: Battle, post: Battle, i: int) -> bool {
    let top = pre.stacks@.last();
    let aid = top.on_stacks@[i];
    let abu = pre.abilities@[aid as int].owner_unit;
    let tu = trigger_unit_of(pre, top.event, abu);
    &&& non_stack_unchanged(pre, post)
    &&& pre.stacks@.len() >= 1
    &&& post.stacks@.len() == pre.stacks@.len() + 1
    &&& post.stacks@.subrange(0, pre.stacks@.len() - 1) == pre.stacks@.drop_last()
    &&& post.stacks@[pre.stacks@.len() - 1].event == top.event
    &&& post.stacks@[pre.stacks@.len() - 1].started == top.started
    &&& post.stacks@[pre.stacks@.len() - 1].on_stacks@ == top.on_stacks@.subrange(0, i)
    &&& is_fresh_frame(
        post.stacks@.last(),
        BattleEvent::UnitStartAbility(
            crate::events::UnitStartAbility { ability: aid, source: abu, target: tu },
        ),
    )
    &&& !pre.units@[abu as int].is_dead
}

/// The full step relation of [`Battle::update`]: on an empty stack nothing
/// happens; an unstarted top frame gets its trigger worklist; a started
/// frame either pushes the use-ability frame of its first firing trigger,
/// or — when no remaining trigger fires — is popped and resolved, and the
/// resolved event is returned for observers.
pub open spec fn update_rel(pre: Battle, post: Battle, r: Option<BattleEvent>) -> bool {
    if pre.stacks@.len() == 0 {
        &&& post == pre
        &&& r is None
    } else {
        let top = pre.stacks@.last();
        if !top.started {
            &&& started_top_rel(pre, post)
            &&& r is None
        } else {
            match first_firing(pre, top.on_stacks@, top.event) {
                Option::Some(i) => {
                    &&& trigger_pushed_rel(pre, post, i)
                    &&& r is None
                },
                Option::None => {
                    &&& r == Option::Some(top.event)
                    &&& resolve_rel(pre, post, top.event)
                },
            }
        }
    }
}

/// Whether the unit at index `u` is an alive enemy of player `p` standing
/// on the board: a legal attack target.
pub open spec fn enemy_on_board(
    units: Seq<UnitInstance>,
    cards: Seq<CardInstance>,
    u: int,
    p: PlayerId,
) -> bool {
    alive_on_board(units, cards, u) && units[u].owner != p
}

/// The first (lowest-index) legal attack target among the first `n` units.
pub open spec fn first_enemy_upto(
    units: Seq<UnitInstance>,
    cards: Seq<CardInstance>,
    p: PlayerId,
    n: int,
) -> Option<UnitId>
    decreases n,
{
    if n <= 0 {
        Option::None
    } else {
        match first_enemy_upto(units, cards, p, n - 1) {
            Option::Some(u) => Option::Some(u),
            Option::None => if enemy_on_board(units, cards, n - 1, p) {
                Option::Some((n - 1) as UnitId)
            } else {
                Option::None
            },
        }
    }
}

/// The first (lowest-index) basic-attack ability instance owned by unit
/// `u` among the first `n` ability instances.
pub open spec fn attack_ability_upto(
    abilities: Seq<AbilityInstance>,
    u: UnitId,
    n: int,
) -> Option<AbilityId>
    decreases n,
{
    if n <= 0 {
        Option::None
    } else {
        match attack_ability_upto(abilities, u, n - 1) {
            Option::Some(a) => Option::Some(a),
            Option::None => if abilities[n - 1].ability_data_id
                == crate::ability::AbilityDataId::Attack && abilities[n - 1].owner_unit == u {
                Option::Some((n - 1) as AbilityId)
            } else {
                Option::None
            },
        }
    }
}

/// The AI's opportunistic attack for the unit at index `u`: if the unit
/// belongs to the acting player, is alive and still has action points, and
/// a target and its own basic-attack ability exist, one use-ability event.
pub open spec fn ai_attack_event(
    units: Seq<UnitInstance>,
    cards: Seq<CardInstance>,
    abilities: Seq<AbilityInstance>,
    p: PlayerId,
    u: int,
) -> Seq<BattleEvent> {
    if units[u].owner == p && units[u].ap > 0 && !units[u].is_dead {
        match first_enemy_upto(units, cards, p, units.len() as int) {
            Option::Some(t) => match attack_ability_upto(abilities, u as UnitId, abilities.len() as int) {
                Option::Some(a) => seq![
                    BattleEvent::UnitStartAbility(
                        crate::events::UnitStartAbility { ability: a, source: u as UnitId, target: t },
                    ),
                ],
                Option::None => Seq::<BattleEvent>::empty(),
            },
            Option::None => Seq::<BattleEvent>::empty(),
        }
    } else {
        Seq::<BattleEvent>::empty()
    }
}

/// The AI's attacks for the first `n` units, in arena order.
pub open spec fn ai_attack_events_upto(
    units: Seq<UnitInstance>,
    cards: Seq<CardInstance>,
    abilities: Seq<AbilityInstance>,
    p: PlayerId,
    n: int,
) -> Seq<BattleEvent>
    decreases n,
{
    if n <= 0 {
        Seq::empty()
    } else {
        ai_attack_events_upto(units, cards, abilities, p, n - 1) + ai_attack_event(
            units,
            cards,
            abilities,
            p,
            n - 1,
        )
    }
}

/// Once a scan below `i` found nothing and `i` is a legal target, `i` is
/// the first legal target of any longer scan.
pub proof fn lemma_first_enemy_found(
    units: Seq<UnitInstance>,
    cards: Seq<CardInstance>,
    p: PlayerId,
    i: int,
    n: int,
)
    requires
        0 <= i < n,
        first_enemy_upto(units, cards, p, i) is None,
        enemy_on_board(units, cards, i, p),
    ensures
        first_enemy_upto(units, cards, p, n) == Option::Some(i as UnitId),
    decreases n,
{
    if n > i + 1 {
        lemma_first_enemy_found(units, cards, p, i, n - 1);
    }
}

/// Once a scan below `i` found nothing and `i` is the unit's basic
/// attack, `i` is the first hit of any longer scan.
pub proof fn lemma_attack_ability_found(abilities: Seq<AbilityInstance>, u: UnitId, i: int, n: int)
    requires
        0 <= i < n,
        attack_ability_upto(abilities, u, i) is None,
        abilities[i].ability_data_id == crate::ability::AbilityDataId::Attack,
        abilities[i].owner_unit == u,
    ensures
        attack_ability_upto(abilities, u, n) == Option::Some(i as AbilityId),
    decreases n,
{
    if n > i + 1 {
        lemma_attack_ability_found(abilities, u, i, n - 1);
    }
}

/// Only the turn-flow stage changed.
pub open spec fn only_stage_changed(pre: Battle, post: Battle, s: BattleFlow) -> bool {
    &&& same_arenas(pre, post)
    &&& post.stacks == pre.stacks
    &&& post.current_player_index == pre.current_player_index
    &&& post.stage == s
}

/// The stage moved and fresh frames for `events` were pushed.
pub open spec fn stage_pushed(pre: Battle, post: Battle, s: BattleFlow, events: Seq<BattleEvent>) -> bool {
    &&& same_arenas(pre, post)
    &&& post.current_player_index == pre.current_player_index
    &&& post.stage == s
    &&& pushed_events(pre.stacks@, post.stacks@, events)
}

/// What one advance of the turn-flow state machine does.  The machine
/// never moves while the frame stack is draining: on a non-empty stack
/// nothing changes at all.  On an empty stack each stage performs its
/// push (if any) and moves on; the player-action stage parks until the
/// gateway acts for a human player, while for an AI player it pushes the
/// end of the turn plus one opportunistic attack per unit that still has
/// action points; the battle-end stage is terminal.
pub open spec fn flow_rel(pre: Battle, post: Battle) -> bool {
    if pre.stacks@.len() > 0 {
        post == pre
    } else {
        let cur = pre.current_player_index;
        match pre.stage {
            BattleFlow::BattleStart => only_stage_changed(pre, post, BattleFlow::PreTurnStart),
            BattleFlow::PreTurnStart => stage_pushed(
                pre,
                post,
                BattleFlow::TurnStart,
                seq![BattleEvent::PreTurnStart(crate::events::PreTurnStart { player: cur })],
            ),
            BattleFlow::TurnStart => stage_pushed(
                pre,
                post,
                BattleFlow::PlayerAction,
                seq![BattleEvent::TurnStart(crate::events::TurnStart { player: cur })],
            ),
            BattleFlow::PlayerAction => {
                if pre.players@[cur as int].controller == crate::player::PlayerController::Ai {
                    stage_pushed(
                        pre,
                        post,
                        BattleFlow::PlayerAction,
                        seq![
                            BattleEvent::PlayerEndTurn(
                                crate::events::PlayerEndTurn { player: cur },
                            ),
                        ] + ai_attack_events_upto(
                            pre.units@,
                            pre.cards@,
                            pre.abilities@,
                            cur,
                            pre.units@.len() as int,
                        ),
                    )
                } else {
                    post == pre
                }
            },
            BattleFlow::TurnEnd => only_stage_changed(pre, post, BattleFlow::PostTurnEnd),
            BattleFlow::PostTurnEnd => only_stage_changed(pre, post, BattleFlow::PlayerChange),
            BattleFlow::PlayerChange => stage_pushed(
                pre,
                post,
                BattleFlow::PreTurnStart,
                seq![
                    BattleEvent::PlayerChange(
                        crate::events::PlayerChange {
                            next_index: ((cur as int + 1) % (pre.players@.len() as int)) as PlayerId,
                        },
                    ),
                ],
            ),
            BattleFlow::BattleEnd => post == pre,
        }
    }
}

/// Pushing one more fresh frame extends a `pushed_events` relation.
pub proof fn lemma_pushed_events_step(
    base: Seq<BattleFrame>,
    mid: Seq<BattleFrame>,
    post: Seq<BattleFrame>,
    events: Seq<BattleEvent>,
    e: BattleEvent,
)
    requires
        pushed_events(base, mid, events),
        pushed_events(mid, post, seq![e]),
    ensures
        pushed_events(base, post, events.push(e)),
{
    assert forall|i: int| 0 <= i < mid.len() implies post[i] == mid[i] by {
        assert(post[i] == post.subrange(0, mid.len() as int)[i]);
    }
    assert forall|i: int| 0 <= i < base.len() implies mid[i] == base[i] by {
        assert(mid[i] == mid.subrange(0, base.len() as int)[i]);
    }
    assert(post.subrange(0, base.len() as int) =~= base);
    assert forall|k: int| 0 <= k < events.push(e).len() implies is_fresh_frame(
        post[base.len() + k],
        #[trigger] events.push(e)[k],
    ) by {
        if k < events.len() {
            assert(is_fresh_frame(mid[base.len() + k], events[k]));
        } else {
            assert(seq![e][0] == e);
            assert(is_fresh_frame(post[mid.len() as int + 0], seq![e][0]));
        }
    }
}

/// Whether `u` is some player's primary (character) unit.
pub open spec fn is_primary_of_some(pre: Battle, u: UnitId) -> bool {
    exists|p: int| 0 <= p < pre.players.len() && pre.primary_unit(p) == u
}

/// Resolving a die event: death is terminal and idempotent — a unit already
/// dead is left untouched.  Otherwise the unit is marked dead, its card
/// moves from the board to its owner's grave (appended on top), and when
/// the dead unit is some player's character the stage is forced to the end
/// of the battle.
pub open spec fn die_rel(
    pre: Battle,
    post: Battle,
    base: Seq<BattleFrame>,
    dead: UnitId,
    killer: UnitId,
) -> bool {
    &&& post.players == pre.players
    &&& post.abilities == pre.abilities
    &&& post.current_player_index == pre.current_player_index
    &&& pushed_events(base, post.stacks@, Seq::<BattleEvent>::empty())
    &&& if pre.units@[dead as int].is_dead {
        &&& post.units == pre.units
        &&& post.cards == pre.cards
        &&& post.stage == pre.stage
    } else {
        let c = pre.units@[dead as int].card as int;
        &&& post.units@ == pre.units@.update(
            dead as int,
            unit_marked_dead(pre.units@[dead as int]),
        )
        &&& if pre.cards@[c].position.position_type == PositionType::Board {
            card_move_rel(
                pre.cards@,
                post.cards@,
                c,
                PositionType::Grave,
                pre.cards@[c].position.x,
                pre.cards@[c].position.y,
            )
        } else {
            post.cards == pre.cards
        }
        &&& post.stage == (if is_primary_of_some(pre, dead) {
            BattleFlow::BattleEnd
        } else {
            pre.stage
        })
    }
}

/// Which units gain an action point at pre-turn-start: those whose card
/// stands on the board of the acting player.
pub open spec fn grants_ap(pre: Battle, u: int, p: PlayerId) -> bool {
    card_in_zone(pre.cards@[pre.units@[u].card as int], p, PositionType::Board)
}

/// Resolving a pre-turn-start event: every unit on the acting player's
/// board gains one action point; nothing else changes.  This is the only
/// step of the engine that ever increases action points.
pub open spec fn pre_turn_rel(pre: Battle, post: Battle, base: Seq<BattleFrame>, p: PlayerId) -> bool {
    &&& post.stage == pre.stage
    &&& post.players == pre.players
    &&& post.abilities == pre.abilities
    &&& post.cards == pre.cards
    &&& post.current_player_index == pre.current_player_index
    &&& pushed_events(base, post.stacks@, Seq::<BattleEvent>::empty())
    &&& post.units@.len() == pre.units@.len()
    &&& forall|u: int|
        0 <= u < pre.units@.len() ==> #[trigger] post.units@[u] == (if grants_ap(pre, u, p) {
            unit_with_ap(pre.units@[u], clip_i32(pre.units@[u].ap + 1) as i32)
        } else {
            pre.units@[u]
        })
}

/// Resolving a use-ability event: the ability's action-point cost is
/// deducted from the source unit, and a fresh ability-start frame is
/// pushed.
pub open spec fn start_ability_rel(
    pre: Battle,
    post: Battle,
    base: Seq<BattleFrame>,
    ability: AbilityId,
    source: UnitId,
    target: UnitId,
) -> bool {
    &&& post.stage == pre.stage
    &&& post.players == pre.players
    &&& post.abilities == pre.abilities
    &&& post.cards == pre.cards
    &&& post.current_player_index == pre.current_player_index
    &&& post.units@ == pre.units@.update(
        source as int,
        unit_with_ap(
            pre.units@[source as int],
            clip_i32(pre.units@[source as int].ap - pre.abilities@[ability as int].ap) as i32,
        ),
    )
    &&& pushed_events(
        base,
        post.stacks@,
        seq![
            BattleEvent::AbilityStart(AbilityStart { ability, source, target }),
        ],
    )
}

/// Whether the unit at index `u` is alive and its card stands on the board:
/// the roster that whole-side effect selectors resolve against.
pub open spec fn alive_on_board(units: Seq<UnitInstance>, cards: Seq<CardInstance>, u: int) -> bool {
    &&& !units[u].is_dead
    &&& cards[units[u].card as int].position.position_type == PositionType::Board
}

/// Which units an effect's target selector picks, resolved against the
/// event's source and target and the current roster.
pub open spec fn effect_selects(
    units: Seq<UnitInstance>,
    cards: Seq<CardInstance>,
    et: EffectTarget,
    source: UnitId,
    target: UnitId,
    u: int,
) -> bool {
    match et {
        EffectTarget::Target => u == target,
        EffectTarget::Source => u == source,
        EffectTarget::AllEnemy => alive_on_board(units, cards, u) && units[u].owner
            != units[source as int].owner,
        EffectTarget::AllAlliance => alive_on_board(units, cards, u) && units[u].owner
            == units[source as int].owner,
        EffectTarget::AllEnemyExceptTarget => alive_on_board(units, cards, u) && units[u].owner
            != units[source as int].owner && u != target,
        EffectTarget::AllAllianceExceptTarget => alive_on_board(units, cards, u) && units[u].owner
            == units[source as int].owner && u != target,
    }
}

/// The hurt events of one damage effect, over the units below `n`, in
/// index order.
pub open spec fn damage_events_upto(
    units: Seq<UnitInstance>,
    cards: Seq<CardInstance>,
    et: EffectTarget,
    source: UnitId,
    target: UnitId,
    d: i32,
    n: int,
) -> Seq<BattleEvent>
    decreases n,
{
    if n <= 0 {
        Seq::empty()
    } else {
        damage_events_upto(units, cards, et, source, target, d, n - 1) + if effect_selects(
            units,
            cards,
            et,
            source,
            target,
            n - 1,
        ) {
            seq![
                BattleEvent::UnitHurt(
                    UnitHurt { source, target: (n - 1) as UnitId, value: d },
                ),
            ]
        } else {
            Seq::<BattleEvent>::empty()
        }
    }
}

/// The events one effect expands to.  An attack effect is the basic mutual
/// combat between the event's source and target.  A damage effect hurts
/// every unit its selector picks.  The remaining effect kinds are content
/// this engine does not interpret: they expand to nothing.
pub open spec fn events_of_effect(
    units: Seq<UnitInstance>,
    cards: Seq<CardInstance>,
    source: UnitId,
    target: UnitId,
    et: EffectTarget,
    ee: AbilityEffect,
) -> Seq<BattleEvent> {
    match ee {
        AbilityEffect::Attack => seq![
            BattleEvent::UnitCombat(UnitCombat { source, target }),
        ],
        AbilityEffect::Damage(d) => damage_events_upto(
            units,
            cards,
            et,
            source,
            target,
            d,
            units.len() as int,
        ),
        _ => Seq::<BattleEvent>::empty(),
    }
}

/// The events of the first `n` effects of the list, in declaration order.
pub open spec fn effect_events_upto(
    units: Seq<UnitInstance>,
    cards: Seq<CardInstance>,
    effects: Seq<(EffectTarget, AbilityEffect)>,
    source: UnitId,
    target: UnitId,
    n: int,
) -> Seq<BattleEvent>
    decreases n,
{
    if n <= 0 {
        Seq::empty()
    } else {
        effect_events_upto(units, cards, effects, source, target, n - 1) + events_of_effect(
            units,
            cards,
            source,
            target,
            effects[n - 1].0,
            effects[n - 1].1,
        )
    }
}

/// Every event an ability expands to, in effect-declaration order.
pub open spec fn ability_events(
    abilities: Seq<AbilityInstance>,
    units: Seq<UnitInstance>,
    cards: Seq<CardInstance>,
    ability: AbilityId,
    source: UnitId,
    target: UnitId,
) -> Seq<BattleEvent> {
    let effects = abilities[ability as int].effects@;
    effect_events_upto(units, cards, effects, source, target, effects.len() as int)
}

/// Resolving an ability-start event: the ability's effect list expands
/// into one fresh frame per event, pushed in reverse declaration order so
/// that the frames resolve in declaration order.
pub open spec fn ability_start_rel(
    pre: Battle,
    post: Battle,
    base: Seq<BattleFrame>,
    ability: AbilityId,
    source: UnitId,
    target: UnitId,
) -> bool {
    &&& post.stage == pre.stage
    &&& post.players == pre.players
    &&& post.units == pre.units
    &&& post.abilities == pre.abilities
    &&& post.cards == pre.cards
    &&& post.current_player_index == pre.current_player_index
    &&& pushed_events(
        base,
        post.stacks@,
        ability_events(pre.abilities@, pre.units@, pre.cards@, ability, source, target).reverse(),
    )
}

/// Resolving a summon event: the card moves from its zone (the hand, for a
/// gateway summon) onto the board at the event's coordinates, appended to
/// the board's stacking order.  The event's stacking order, side and
/// facing are deliberately ignored: the order is renormalized to keep
/// densities, the card stays on its owner's side, and it keeps its own
/// facing.
pub open spec fn summon_rel(
    pre: Battle,
    post: Battle,
    base: Seq<BattleFrame>,
    card: CardId,
    position: Position,
) -> bool {
    &&& post.stage == pre.stage
    &&& post.players == pre.players
    &&& post.units == pre.units
    &&& post.abilities == pre.abilities
    &&& post.current_player_index == pre.current_player_index
    &&& pushed_events(base, post.stacks@, Seq::<BattleEvent>::empty())
    &&& card_move_rel(pre.cards@, post.cards@, card as int, PositionType::Board, position.x, position.y)
}

/// Resolving a draw event: the `k` oldest deck cards of the player (those
/// with the lowest stacking orders, `k` capped at the deck size and at
/// least zero) move into the hand, appended in deck order, and the
/// remaining deck closes ranks.
pub open spec fn draw_rel(
    pre: Battle,
    post: Battle,
    base: Seq<BattleFrame>,
    p: PlayerId,
    c: i32,
) -> bool {
    let deck0 = pre.zone_count(p, PositionType::Deck);
    let hand0 = pre.zone_count(p, PositionType::Hand);
    let k = if c < 0 {
        0int
    } else if c > deck0 {
        deck0
    } else {
        c as int
    };
    &&& post.stage == pre.stage
    &&& post.players == pre.players
    &&& post.units == pre.units
    &&& post.abilities == pre.abilities
    &&& post.current_player_index == pre.current_player_index
    &&& pushed_events(base, post.stacks@, Seq::<BattleEvent>::empty())
    &&& post.cards@.len() == pre.cards@.len()
    &&& forall|i: int|
        0 <= i < pre.cards@.len() ==> #[trigger] post.cards@[i] == (if card_in_zone(
            pre.cards@[i],
            p,
            PositionType::Deck,
        ) {
            if pre.cards@[i].position.z < k {
                card_with_position(
                    pre.cards@[i],
                    Position {
                        position_type: PositionType::Hand,
                        z: (hand0 + pre.cards@[i].position.z) as i32,
                        ..pre.cards@[i].position
                    },
                )
            } else {
                card_with_position(
                    pre.cards@[i],
                    Position { z: (pre.cards@[i].position.z - k) as i32, ..pre.cards@[i].position },
                )
            }
        } else {
            pre.cards@[i]
        })
}

/// Resolving a hurt event: `target` takes `value` damage from `source`.
/// A unit already dead is left untouched (death is terminal and idempotent).
/// Otherwise the target's hit points drop, saturating at the `i32` bounds,
/// and if they reach zero or below, a fresh die frame for the target is
/// pushed on top of `base` so that the death — including its own triggers —
/// resolves before anything beneath.
pub open spec fn hurt_rel(
    pre: Battle,
    post: Battle,
    base: Seq<BattleFrame>,
    source: UnitId,
    target: UnitId,
    value: i32,
) -> bool {
    &&& post.stage == pre.stage
    &&& post.players == pre.players
    &&& post.abilities == pre.abilities
    &&& post.cards == pre.cards
    &&& post.current_player_index == pre.current_player_index
    &&& if pre.units@[target as int].is_dead {
        &&& post.units == pre.units
        &&& pushed_events(base, post.stacks@, Seq::<BattleEvent>::empty())
    } else {
        let new_hp = clip_i32(pre.units@[target as int].hp - value) as i32;
        &&& post.units@ == pre.units@.update(
            target as int,
            unit_with_hp(pre.units@[target as int], new_hp),
        )
        &&& pushed_events(
            base,
            post.stacks@,
            if new_hp <= 0 {
                seq![BattleEvent::UnitDie(UnitDie { dead: target, killer: source })]
            } else {
                Seq::<BattleEvent>::empty()
            },
        )
    }
}

/// Resolving a combat event: both damage figures are computed from the
/// statistics both units have at expansion time, then two fresh hurt frames
/// are pushed — the damage to the original attacker on top, so it resolves
/// first.  Neither figure is applied here: the pushed frames carry them.
pub open spec fn combat_rel(
    pre: Battle,
    post: Battle,
    base: Seq<BattleFrame>,
    source: UnitId,
    target: UnitId,
) -> bool {
    let source_unit = pre.units@[source as int];
    let target_unit = pre.units@[target as int];
    &&& post.stage == pre.stage
    &&& post.players == pre.players
    &&& post.abilities == pre.abilities
    &&& post.cards == pre.cards
    &&& post.units == pre.units
    &&& post.current_player_index == pre.current_player_index
    &&& pushed_events(
        base,
        post.stacks@,
        seq![
            BattleEvent::UnitHurt(
                UnitHurt {
                    source,
                    target,
                    value: damage_of(source_unit.atk as int, target_unit.def as int) as i32,
                },
            ),
            BattleEvent::UnitHurt(
                UnitHurt {
                    source: target,
                    target: source,
                    value: damage_of(target_unit.atk as int, source_unit.def as int) as i32,
                },
            ),
        ],
    )
}

impl Battle {
    /// Pushes a fresh frame for `event` on top of the stack.
    pub fn push_frame(&mut self, event: BattleEvent)
        requires
            old(self).wf(),
            old(self).event_wf(event),
        ensures
            final(self).wf(),
            final(self).stage == old(self).stage,
            final(self).players == old(self).players,
            final(self).units == old(self).units,
            final(self).abilities == old(self).abilities,
            final(self).cards == old(self).cards,
            final(self).current_player_index == old(self).current_player_index,
            pushed_events(old(self).stacks@, final(self).stacks@, seq![event]),
    {
        self.stacks.push(BattleFrame { event, on_stacks: Vec::new(), started: false });
        proof {
            assert(self.stacks@.subrange(0, old(self).stacks@.len() as int) =~= old(
                self,
            ).stacks@);
            assert forall|k: int| 0 <= k < self.stacks@.len() implies old(self).frame_wf(
                #[trigger] self.stacks@[k],
            ) by {
                if k < old(self).stacks@.len() {
                    assert(old(self).frame_wf(old(self).stacks@[k]));
                }
            }
            lemma_wf_preserved(*old(self), *self);
        }
    }

    /// Counts the cards standing in the zone `zt` of player `p`.
    pub fn count_zone(&self, p: PlayerId, zt: PositionType) -> (r: usize)
        requires
            self.cards.len() < 0x4000_0000,
        ensures
            r as int == self.zone_count(p, zt),
            r <= self.cards.len(),
    {
        let mut r: usize = 0;
        let n = self.cards.len();
        let mut i: usize = 0;
        while i < n
            invariant
                i <= n,
                n == self.cards.len(),
                n < 0x4000_0000,
                r as int == zone_count_upto(self.cards@, p, zt, i as int),
                r <= i,
            decreases n - i,
        {
            let pos = &self.cards[i].position;
            if pos.player_id == p && pos.position_type == zt {
                r = r + 1;
            }
            i = i + 1;
        }
        r
    }

    /// Moves card `c` from its zone to the zone `dest` at coordinates
    /// `(nx, ny)`, appending it to the destination's stacking order and
    /// closing the gap it leaves behind.
    fn move_card(&mut self, c: CardId, dest: PositionType, nx: i32, ny: i32)
        requires
            old(self).wf(),
            c < old(self).cards.len(),
        ensures
            final(self).wf(),
            card_move_rel(old(self).cards@, final(self).cards@, c as int, dest, nx, ny),
            final(self).stage == old(self).stage,
            final(self).stacks == old(self).stacks,
            final(self).players == old(self).players,
            final(self).units == old(self).units,
            final(self).abilities == old(self).abilities,
            final(self).current_player_index == old(self).current_player_index,
    {
        let p = self.cards[c].position.player_id;
        let src = self.cards[c].position.position_type;
        let z0 = self.cards[c].position.z;
        let face_up = self.cards[c].position.face_up;
        let dest_total = self.count_zone(p, dest);
        proof {
            assert(0 <= self.cards@[c as int].position.z < self.zone_count(p, src));
        }
        let dest_cnt: usize = if src == dest {
            dest_total - 1
        } else {
            dest_total
        };
        let n = self.cards.len();
        let mut i: usize = 0;
        while i < n
            invariant
                i <= n,
                n == self.cards.len(),
                c < n,
                self.cards@.len() == old(self).cards@.len(),
                p == old(self).cards@[c as int].position.player_id,
                src == old(self).cards@[c as int].position.position_type,
                z0 == old(self).cards@[c as int].position.z,
                0 <= z0,
                forall|k: int|
                    0 <= k < n && k != c && k < i ==> #[trigger] self.cards@[k] == (
                    if card_in_zone(old(self).cards@[k], p, src) && old(
                        self,
                    ).cards@[k].position.z > z0 {
                        card_with_position(
                            old(self).cards@[k],
                            Position {
                                z: (old(self).cards@[k].position.z - 1) as i32,
                                ..old(self).cards@[k].position
                            },
                        )
                    } else {
                        old(self).cards@[k]
                    }),
                forall|k: int|
                    0 <= k < n && (k == c || k >= i) ==> #[trigger] self.cards@[k] == old(
                        self,
                    ).cards@[k],
                self.stage == old(self).stage,
                self.stacks == old(self).stacks,
                self.players == old(self).players,
                self.units == old(self).units,
                self.abilities == old(self).abilities,
                self.current_player_index == old(self).current_player_index,
            decreases n - i,
        {
            if i != c {
                let pos = &self.cards[i].position;
                if pos.player_id == p && pos.position_type == src && pos.z > z0 {
                    let z = self.cards[i].position.z;
                    self.cards[i].position.z = z - 1;
                }
            }
            i = i + 1;
        }
        self.cards[c].position = Position {
            x: nx,
            y: ny,
            z: dest_cnt as i32,
            face_up,
            player_id: p,
            position_type: dest,
        };
        proof {
            lemma_zone_count_bounds(old(self).cards@, p, dest, old(self).cards@.len() as int);
            assert(card_move_rel(old(self).cards@, self.cards@, c as int, dest, nx, ny));
            lemma_wf_after_move(*old(self), *self, c as int, dest, nx, ny);
        }
    }

    /// Resolves a hurt event: subtracts `value` from the target's hit
    /// points and, when they fall to zero or below, pushes the die frame.
    fn resolve_unit_hurt(&mut self, source: UnitId, target: UnitId, value: i32)
        requires
            old(self).wf(),
            source < old(self).units.len(),
            target < old(self).units.len(),
        ensures
            final(self).wf(),
            hurt_rel(*old(self), *final(self), old(self).stacks@, source, target, value),
    {
        if self.units[target].is_dead {
            proof {
                assert(self.stacks@.subrange(0, self.stacks@.len() as int) =~= self.stacks@);
            }
            return ;
        }
        let hp = self.units[target].hp;
        let new_hp = sat_sub(hp, value);
        self.units[target].hp = new_hp;
        proof {
            assert(self.units@ =~= old(self).units@.update(
                target as int,
                unit_with_hp(old(self).units@[target as int], new_hp),
            ));
            lemma_wf_preserved(*old(self), *self);
        }
        if new_hp <= 0 {
            let die = BattleEvent::UnitDie(UnitDie { dead: target, killer: source });
            self.push_frame(die);
        } else {
            proof {
                assert(self.stacks@.subrange(0, self.stacks@.len() as int) =~= self.stacks@);
            }
        }
    }

    /// Finds the card at the bottom of the zone's stacking order (`z == 0`);
    /// density guarantees it exists in a non-empty zone.
    fn find_zone_card_z0(&self, p: PlayerId, zt: PositionType) -> (idx: usize)
        requires
            self.wf(),
            self.zone_count(p, zt) > 0,
        ensures
            idx < self.cards.len(),
            card_in_zone(self.cards@[idx as int], p, zt),
            self.cards@[idx as int].position.z == 0,
    {
        let n = self.cards.len();
        let mut i: usize = 0;
        while i < n
            invariant
                i <= n,
                n == self.cards.len(),
                forall|j: int|
                    0 <= j < i ==> !(card_in_zone(#[trigger] self.cards@[j], p, zt)
                        && self.cards@[j].position.z == 0),
            decreases n - i,
        {
            let pos = &self.cards[i].position;
            if pos.player_id == p && pos.position_type == zt && pos.z == 0 {
                return i;
            }
            i = i + 1;
        }
        proof {
            lemma_zone_surjective(*self, p, zt);
            assert(zone_has_z(*self, p, zt, 0));
            assert(false);
        }
        0
    }

    /// Resolves a draw event: moves the `c` oldest deck cards of the player
    /// into the hand, one at a time from the bottom of the deck.
    fn resolve_player_draw(&mut self, p: PlayerId, c: i32)
        requires
            old(self).wf(),
        ensures
            final(self).wf(),
            draw_rel(*old(self), *final(self), old(self).stacks@, p, c),
    {
        let deck0 = self.count_zone(p, PositionType::Deck);
        let ghost hand0 = self.zone_count(p, PositionType::Hand);
        let take: usize = if c <= 0 {
            0
        } else if c as usize > deck0 {
            deck0
        } else {
            c as usize
        };
        let ghost takeg = take as int;
        let mut k: usize = 0;
        while k < take
            invariant
                old(self).wf(),
                self.wf(),
                k <= take,
                takeg == take as int,
                take <= deck0,
                deck0 as int == old(self).zone_count(p, PositionType::Deck),
                hand0 == old(self).zone_count(p, PositionType::Hand),
                self.zone_count(p, PositionType::Deck) == deck0 - k,
                self.zone_count(p, PositionType::Hand) == hand0 + k,
                self.stage == old(self).stage,
                self.stacks == old(self).stacks,
                self.players == old(self).players,
                self.units == old(self).units,
                self.abilities == old(self).abilities,
                self.current_player_index == old(self).current_player_index,
                self.cards@.len() == old(self).cards@.len(),
                forall|i: int|
                    0 <= i < old(self).cards@.len() ==> #[trigger] self.cards@[i] == (
                    if card_in_zone(old(self).cards@[i], p, PositionType::Deck) {
                        if old(self).cards@[i].position.z < k {
                            card_with_position(
                                old(self).cards@[i],
                                Position {
                                    position_type: PositionType::Hand,
                                    z: (hand0 + old(self).cards@[i].position.z) as i32,
                                    ..old(self).cards@[i].position
                                },
                            )
                        } else {
                            card_with_position(
                                old(self).cards@[i],
                                Position {
                                    z: (old(self).cards@[i].position.z - k) as i32,
                                    ..old(self).cards@[i].position
                                },
                            )
                        }
                    } else {
                        old(self).cards@[i]
                    }),
            decreases take - k,
        {
            let idx = self.find_zone_card_z0(p, PositionType::Deck);
            let ghost mid = *self;
            proof {
                // the found card is the deck card whose original order is k
                assert(mid.cards@[idx as int] == (if old(self).cards@[idx as int].position.z < k {
                    card_with_position(
                        old(self).cards@[idx as int],
                        Position {
                            position_type: PositionType::Hand,
                            z: (hand0 + old(self).cards@[idx as int].position.z) as i32,
                            ..old(self).cards@[idx as int].position
                        },
                    )
                } else {
                    card_with_position(
                        old(self).cards@[idx as int],
                        Position {
                            z: (old(self).cards@[idx as int].position.z - k) as i32,
                            ..old(self).cards@[idx as int].position
                        },
                    )
                }));
                assert(card_in_zone(old(self).cards@[idx as int], p, PositionType::Deck));
                assert(old(self).cards@[idx as int].position.z == k);
            }
            let x = self.cards[idx].position.x;
            let y = self.cards[idx].position.y;
            self.move_card(idx, PositionType::Hand, x, y);
            proof {
                let pre = *old(self);
                let n = pre.cards@.len() as int;
                assert(card_move_rel(mid.cards@, self.cards@, idx as int, PositionType::Hand, x, y));
                lemma_zone_count_almost_same(
                    mid.cards@,
                    self.cards@,
                    idx as int,
                    p,
                    PositionType::Deck,
                    n,
                );
                lemma_zone_count_almost_same(
                    mid.cards@,
                    self.cards@,
                    idx as int,
                    p,
                    PositionType::Hand,
                    n,
                );
                assert forall|i: int| 0 <= i < pre.cards@.len() implies #[trigger] self.cards@[i]
                    == (if card_in_zone(pre.cards@[i], p, PositionType::Deck) {
                    if pre.cards@[i].position.z < k + 1 {
                        card_with_position(
                            pre.cards@[i],
                            Position {
                                position_type: PositionType::Hand,
                                z: (hand0 + pre.cards@[i].position.z) as i32,
                                ..pre.cards@[i].position
                            },
                        )
                    } else {
                        card_with_position(
                            pre.cards@[i],
                            Position {
                                z: (pre.cards@[i].position.z - (k + 1)) as i32,
                                ..pre.cards@[i].position
                            },
                        )
                    }
                } else {
                    pre.cards@[i]
                }) by {
                    if i == idx as int {
                    } else {
                        assert(mid.cards@[i] == (if card_in_zone(
                            pre.cards@[i],
                            p,
                            PositionType::Deck,
                        ) {
                            if pre.cards@[i].position.z < k {
                                card_with_position(
                                    pre.cards@[i],
                                    Position {
                                        position_type: PositionType::Hand,
                                        z: (hand0 + pre.cards@[i].position.z) as i32,
                                        ..pre.cards@[i].position
                                    },
                                )
                            } else {
                                card_with_position(
                                    pre.cards@[i],
                                    Position {
                                        z: (pre.cards@[i].position.z - k) as i32,
                                        ..pre.cards@[i].position
                                    },
                                )
                            }
                        } else {
                            pre.cards@[i]
                        }));
                        if card_in_zone(pre.cards@[i], p, PositionType::Deck)
                            && pre.cards@[i].position.z == k {
                            assert(card_in_zone(
                                pre.cards@[i],
                                pre.cards@[idx as int].position.player_id,
                                pre.cards@[idx as int].position.position_type,
                            ));
                            assert(false);
                        }
                    }
                }
            }
            k = k + 1;
        }
        proof {
            assert(self.stacks@.subrange(0, self.stacks@.len() as int) =~= self.stacks@);
            assert(take as int == (if (c as int) < 0 {
                0int
            } else if c as int > old(self).zone_count(p, PositionType::Deck) {
                old(self).zone_count(p, PositionType::Deck)
            } else {
                c as int
            }));
        }
    }

    /// Resolves a die event: marks the unit dead, moves its card from the
    /// board to the grave, and ends the battle when a character unit died.
    fn resolve_unit_die(&mut self, dead: UnitId, killer: UnitId)
        requires
            old(self).wf(),
            dead < old(self).units.len(),
            killer < old(self).units.len(),
        ensures
            final(self).wf(),
            die_rel(*old(self), *final(self), old(self).stacks@, dead, killer),
    {
        proof {
            assert(self.stacks@.subrange(0, self.stacks@.len() as int) =~= self.stacks@);
        }
        if self.units[dead].is_dead {
            return ;
        }
        self.units[dead].is_dead = true;
        proof {
            assert(self.units@ =~= old(self).units@.update(
                dead as int,
                unit_marked_dead(old(self).units@[dead as int]),
            ));
            lemma_wf_preserved(*old(self), *self);
        }
        let c = self.units[dead].card;
        proof {
            assert(old(self).unit_wf(dead as int));
        }
        if self.cards[c].position.position_type == PositionType::Board {
            let x = self.cards[c].position.x;
            let y = self.cards[c].position.y;
            self.move_card(c, PositionType::Grave, x, y);
        }
        let ghost moved = *self;
        let mut is_primary = false;
        let n = self.players.len();
        let mut p: usize = 0;
        while p < n
            invariant
                p <= n,
                *self == moved,
                moved.wf(),
                n == self.players.len(),
                dead < self.units.len(),
                is_primary <==> exists|q: int|
                    0 <= q < p && #[trigger] self.primary_unit(q) == dead,
            decreases n - p,
        {
            let pc = self.players[p].player_card_instance_id;
            proof {
                assert(self.player_wf(p as int));
            }
            let matches_dead = match self.cards[pc].card_type {
                CardInstanceType::UnitInstance(u) => u == dead,
            };
            if matches_dead {
                is_primary = true;
                proof {
                    assert(self.primary_unit(p as int) == dead);
                }
            }
            p = p + 1;
        }
        if is_primary {
            self.stage = BattleFlow::BattleEnd;
        }
        proof {
            assert(moved.players == old(self).players);
            assert forall|q: int| 0 <= q < moved.players.len() implies moved.primary_unit(q)
                == old(self).primary_unit(q) by {
                assert(old(self).player_wf(q));
                let pc2 = old(self).players@[q].player_card_instance_id as int;
                assert(moved.cards@[pc2].card_type == old(self).cards@[pc2].card_type);
            }
            assert(is_primary == is_primary_of_some(*old(self), dead)) by {
                if is_primary {
                    let q = choose|q: int|
                        0 <= q < moved.players.len() && #[trigger] moved.primary_unit(q) == dead;
                    assert(old(self).primary_unit(q) == dead);
                }
                if is_primary_of_some(*old(self), dead) {
                    let q = choose|q: int|
                        0 <= q < old(self).players.len() && #[trigger] old(self).primary_unit(q)
                            == dead;
                    assert(moved.primary_unit(q) == dead);
                }
            }
            lemma_wf_preserved(moved, *self);
        }
    }

    /// Resolves a pre-turn-start event: grants one action point to every
    /// unit on the acting player's board.
    fn resolve_pre_turn_start(&mut self, player: PlayerId)
        requires
            old(self).wf(),
        ensures
            final(self).wf(),
            pre_turn_rel(*old(self), *final(self), old(self).stacks@, player),
    {
        let n = self.units.len();
        let mut u: usize = 0;
        while u < n
            invariant
                u <= n,
                old(self).wf(),
                n == self.units.len(),
                self.units@.len() == old(self).units@.len(),
                self.stage == old(self).stage,
                self.stacks == old(self).stacks,
                self.players == old(self).players,
                self.abilities == old(self).abilities,
                self.cards == old(self).cards,
                self.current_player_index == old(self).current_player_index,
                forall|k: int|
                    0 <= k < u ==> #[trigger] self.units@[k] == (if grants_ap(
                        *old(self),
                        k,
                        player,
                    ) {
                        unit_with_ap(
                            old(self).units@[k],
                            clip_i32(old(self).units@[k].ap + 1) as i32,
                        )
                    } else {
                        old(self).units@[k]
                    }),
                forall|k: int| u <= k < n ==> #[trigger] self.units@[k] == old(self).units@[k],
            decreases n - u,
        {
            proof {
                assert(old(self).unit_wf(u as int));
            }
            let c = self.units[u].card;
            let pos = &self.cards[c].position;
            if pos.player_id == player && pos.position_type == PositionType::Board {
                let new_ap = sat_add(self.units[u].ap, 1);
                self.units[u].ap = new_ap;
            }
            u = u + 1;
        }
        proof {
            assert(self.stacks@.subrange(0, self.stacks@.len() as int) =~= self.stacks@);
            lemma_wf_preserved(*old(self), *self);
        }
    }

    /// Resolves a use-ability event: deducts the ability's action-point
    /// cost from the source unit and pushes the ability-start frame.
    fn resolve_unit_start_ability(&mut self, ability: AbilityId, source: UnitId, target: UnitId)
        requires
            old(self).wf(),
            ability < old(self).abilities.len(),
            source < old(self).units.len(),
            target < old(self).units.len(),
        ensures
            final(self).wf(),
            start_ability_rel(
                *old(self),
                *final(self),
                old(self).stacks@,
                ability,
                source,
                target,
            ),
    {
        let cost = self.abilities[ability].ap;
        let ap = self.units[source].ap;
        let new_ap = sat_sub(ap, cost);
        self.units[source].ap = new_ap;
        proof {
            assert(self.units@ =~= old(self).units@.update(
                source as int,
                unit_with_ap(old(self).units@[source as int], new_ap),
            ));
            lemma_wf_preserved(*old(self), *self);
        }
        let start = BattleEvent::AbilityStart(AbilityStart { ability, source, target });
        self.push_frame(start);
    }

    /// Whether the effect selector picks unit `u`.
    fn effect_selects_exec(&self, et: EffectTarget, source: UnitId, target: UnitId, u: usize) -> (r:
        bool)
        requires
            self.wf(),
            source < self.units.len(),
            u < self.units.len(),
        ensures
            r == effect_selects(self.units@, self.cards@, et, source, target, u as int),
    {
        proof {
            assert(self.unit_wf(u as int));
        }
        match et {
            EffectTarget::Target => u == target,
            EffectTarget::Source => u == source,
            EffectTarget::AllEnemy => {
                let c = self.units[u].card;
                !self.units[u].is_dead && self.cards[c].position.position_type
                    == PositionType::Board && self.units[u].owner != self.units[source].owner
            },
            EffectTarget::AllAlliance => {
                let c = self.units[u].card;
                !self.units[u].is_dead && self.cards[c].position.position_type
                    == PositionType::Board && self.units[u].owner == self.units[source].owner
            },
            EffectTarget::AllEnemyExceptTarget => {
                let c = self.units[u].card;
                !self.units[u].is_dead && self.cards[c].position.position_type
                    == PositionType::Board && self.units[u].owner != self.units[source].owner && u
                    != target
            },
            EffectTarget::AllAllianceExceptTarget => {
                let c = self.units[u].card;
                !self.units[u].is_dead && self.cards[c].position.position_type
                    == PositionType::Board && self.units[u].owner == self.units[source].owner && u
                    != target
            },
        }
    }

    /// Resolves an ability-start event: expands the effect list into fresh
    /// frames, pushed in reverse declaration order so they resolve in
    /// declaration order.
    fn resolve_ability_start(&mut self, ability: AbilityId, source: UnitId, target: UnitId)
        requires
            old(self).wf(),
            ability < old(self).abilities.len(),
            source < old(self).units.len(),
            target < old(self).units.len(),
        ensures
            final(self).wf(),
            ability_start_rel(*old(self), *final(self), old(self).stacks@, ability, source, target),
    {
        let mut events: Vec<BattleEvent> = Vec::new();
        let n_eff = self.abilities[ability].effects.len();
        let ghost effects = self.abilities@[ability as int].effects@;
        let mut e_i: usize = 0;
        while e_i < n_eff
            invariant
                *self == *old(self),
                old(self).wf(),
                ability < self.abilities.len(),
                source < self.units.len(),
                target < self.units.len(),
                e_i <= n_eff,
                effects == self.abilities@[ability as int].effects@,
                n_eff == effects.len(),
                events@ == effect_events_upto(self.units@, self.cards@, effects, source, target, e_i as int),
                forall|m: int|
                    0 <= m < events@.len() ==> self.event_wf(#[trigger] events@[m]),
            decreases n_eff - e_i,
        {
            let pair = self.abilities[ability].effects[e_i];
            match pair.1 {
                AbilityEffect::Attack => {
                    events.push(BattleEvent::UnitCombat(UnitCombat { source, target }));
                    proof {
                        assert(events@ =~= effect_events_upto(
                            self.units@,
                            self.cards@,
                            effects,
                            source,
                            target,
                            e_i as int + 1,
                        ));
                    }
                },
                AbilityEffect::Damage(d) => {
                    let n_u = self.units.len();
                    let mut u: usize = 0;
                    while u < n_u
                        invariant
                            *self == *old(self),
                            old(self).wf(),
                            ability < self.abilities.len(),
                            source < self.units.len(),
                            target < self.units.len(),
                            u <= n_u,
                            n_u == self.units.len(),
                            e_i < n_eff,
                            effects == self.abilities@[ability as int].effects@,
                            n_eff == effects.len(),
                            pair == effects[e_i as int],
                            pair.1 == AbilityEffect::Damage(d),
                            events@ == effect_events_upto(
                                self.units@,
                                self.cards@,
                                effects,
                                source,
                                target,
                                e_i as int,
                            ) + damage_events_upto(
                                self.units@,
                                self.cards@,
                                pair.0,
                                source,
                                target,
                                d,
                                u as int,
                            ),
                            forall|m: int|
                                0 <= m < events@.len() ==> self.event_wf(#[trigger] events@[m]),
                        decreases n_u - u,
                    {
                        if self.effect_selects_exec(pair.0, source, target, u) {
                            events.push(
                                BattleEvent::UnitHurt(UnitHurt { source, target: u, value: d }),
                            );
                        }
                        proof {
                            assert(events@ =~= effect_events_upto(
                                self.units@,
                                self.cards@,
                                effects,
                                source,
                                target,
                                e_i as int,
                            ) + damage_events_upto(
                                self.units@,
                                self.cards@,
                                pair.0,
                                source,
                                target,
                                d,
                                u as int + 1,
                            ));
                        }
                        u = u + 1;
                    }
                    proof {
                        assert(events@ =~= effect_events_upto(
                            self.units@,
                            self.cards@,
                            effects,
                            source,
                            target,
                            e_i as int + 1,
                        ));
                    }
                },
                _ => {
                    proof {
                        assert(events_of_effect(
                            self.units@,
                            self.cards@,
                            source,
                            target,
                            pair.0,
                            pair.1,
                        ) =~= Seq::<BattleEvent>::empty());
                        assert(events@ =~= effect_events_upto(
                            self.units@,
                            self.cards@,
                            effects,
                            source,
                            target,
                            e_i as int + 1,
                        ));
                    }
                },
            }
            e_i = e_i + 1;
        }
        let ghost evs = ability_events(
            old(self).abilities@,
            old(self).units@,
            old(self).cards@,
            ability,
            source,
            target,
        );
        proof {
            assert(events@ == evs);
        }
        let mut j: usize = events.len();
        proof {
            assert(evs.subrange(j as int, evs.len() as int).reverse()
                =~= Seq::<BattleEvent>::empty());
            assert(self.stacks@.subrange(0, self.stacks@.len() as int) =~= self.stacks@);
        }
        while j > 0
            invariant
                j <= events@.len(),
                evs == events@,
                evs == ability_events(
                    old(self).abilities@,
                    old(self).units@,
                    old(self).cards@,
                    ability,
                    source,
                    target,
                ),
                self.wf(),
                self.stage == old(self).stage,
                self.players == old(self).players,
                self.units == old(self).units,
                self.abilities == old(self).abilities,
                self.cards == old(self).cards,
                self.current_player_index == old(self).current_player_index,
                pushed_events(
                    old(self).stacks@,
                    self.stacks@,
                    evs.subrange(j as int, evs.len() as int).reverse(),
                ),
                forall|m: int|
                    0 <= m < events@.len() ==> old(self).event_wf(#[trigger] events@[m]),
            decreases j,
        {
            j = j - 1;
            let ev = events[j];
            let ghost mid = self.stacks@;
            proof {
                assert(old(self).event_wf(events@[j as int]));
            }
            self.push_frame(ev);
            proof {
                lemma_pushed_events_step(
                    old(self).stacks@,
                    mid,
                    self.stacks@,
                    evs.subrange(j as int + 1, evs.len() as int).reverse(),
                    ev,
                );
                assert(evs.subrange(j as int, evs.len() as int).reverse() =~= evs.subrange(
                    j as int + 1,
                    evs.len() as int,
                ).reverse().push(evs[j as int]));
            }
        }
        proof {
            assert(evs.subrange(0, evs.len() as int) =~= evs);
        }
    }

    /// The unit instance on the player's character card.
    pub fn primary_unit_exec(&self, p: PlayerId) -> (u: UnitId)
        requires
            self.wf(),
            p < self.players.len(),
        ensures
            u == self.primary_unit(p as int),
            u < self.units.len(),
    {
        proof {
            assert(self.player_wf(p as int));
        }
        let pc = self.players[p].player_card_instance_id;
        proof {
            assert(self.card_wf(pc as int));
        }
        match self.cards[pc].card_type {
            CardInstanceType::UnitInstance(u) => u,
        }
    }

    /// The trigger-unit role binding of `e` for an ability owned by
    /// `ability_unit`.
    fn trigger_unit_exec(&self, e: BattleEvent, ability_unit: UnitId) -> (u: UnitId)
        requires
            self.wf(),
            self.event_wf(e),
            ability_unit < self.units.len(),
        ensures
            u == trigger_unit_of(*self, e, ability_unit),
            u < self.units.len(),
    {
        match e {
            BattleEvent::PreTurnStart(_) => ability_unit,
            BattleEvent::TurnStart(_) => ability_unit,
            BattleEvent::TurnEnd(_) => ability_unit,
            BattleEvent::PostTurnEnd(_) => ability_unit,
            BattleEvent::PlayerChange(x) => self.primary_unit_exec(x.next_index),
            BattleEvent::PlayerDraw(x) => self.primary_unit_exec(x.player),
            BattleEvent::PlayerEndTurn(x) => self.primary_unit_exec(x.player),
            BattleEvent::UnitHurt(x) => x.target,
            BattleEvent::UnitDie(x) => x.dead,
            BattleEvent::UnitStartAbility(x) => x.source,
            BattleEvent::UnitCombat(x) => x.source,
            BattleEvent::AbilityStart(x) => x.source,
            BattleEvent::SummonUnit(x) => {
                proof {
                    assert(self.card_wf(x.card as int));
                }
                match self.cards[x.card].card_type {
                    CardInstanceType::UnitInstance(u) => u,
                }
            },
        }
    }

    /// The action-unit role binding of `e` for an ability owned by
    /// `ability_unit`.
    fn action_unit_exec(&self, e: BattleEvent, ability_unit: UnitId) -> (u: UnitId)
        requires
            self.wf(),
            self.event_wf(e),
            ability_unit < self.units.len(),
        ensures
            u == action_unit_of(*self, e, ability_unit),
            u < self.units.len(),
    {
        match e {
            BattleEvent::UnitHurt(x) => x.source,
            BattleEvent::UnitDie(x) => x.killer,
            _ => self.trigger_unit_exec(e, ability_unit),
        }
    }

    /// Evaluates every condition of the trigger ability at index `a`
    /// against the role bindings of `e`.
    fn eval_conditions(&self, a: AbilityId, e: BattleEvent) -> (r: bool)
        requires
            self.wf(),
            a < self.abilities.len(),
            self.event_wf(e),
            self.abilities@[a as int].ability_type is Trigger,
        ensures
            r == conditions_hold(*self, a as int, e),
    {
        proof {
            assert(self.ability_wf(a as int));
        }
        let abu = self.abilities[a].owner_unit;
        let tu = self.trigger_unit_exec(e, abu);
        let au = self.action_unit_exec(e, abu);
        match &self.abilities[a].ability_type {
            AbilityType::Trigger(t) => {
                proof {
                    assert(self.abilities@[a as int].ability_type == AbilityType::Trigger(*t));
                }
                let n = t.conditions.len();
                let mut i: usize = 0;
                while i < n
                    invariant
                        i <= n,
                        n == t.conditions.len(),
                        a < self.abilities.len(),
                        self.abilities@[a as int].ability_type == AbilityType::Trigger(*t),
                        abu == self.abilities@[a as int].owner_unit,
                        tu == trigger_unit_of(*self, e, abu),
                        au == action_unit_of(*self, e, abu),
                        forall|k: int|
                            0 <= k < i ==> condition_holds(
                                #[trigger] t.conditions@[k],
                                tu,
                                au,
                                abu,
                            ),
                    decreases n - i,
                {
                    let holds = match t.conditions[i] {
                        TriggerCondition::UnitEq(v1, v2) => {
                            let u1 = match v1 {
                                UnitVar::TriggerUnit => tu,
                                UnitVar::ActionUnit => au,
                                UnitVar::AbilityUnit => abu,
                            };
                            let u2 = match v2 {
                                UnitVar::TriggerUnit => tu,
                                UnitVar::ActionUnit => au,
                                UnitVar::AbilityUnit => abu,
                            };
                            u1 == u2
                        },
                    };
                    if !holds {
                        proof {
                            assert(abu == self.abilities@[a as int].owner_unit);
                            assert(tu == trigger_unit_of(*self, e, abu));
                            assert(au == action_unit_of(*self, e, abu));
                            assert(!condition_holds(t.conditions@[i as int], tu, au, abu));
                            assert(!conditions_hold(*self, a as int, e));
                        }
                        return false;
                    }
                    i = i + 1;
                }
                true
            },
            AbilityType::Active(_) => {
                proof {
                    assert(false);
                }
                false
            },
        }
    }

    /// Collects the worklist of a new frame: every trigger-ability instance
    /// whose event kind matches `e` and whose owner is alive, sorted by
    /// priority.  Ties keep the arena's iteration order (a documented weak
    /// guarantee of the engine, deliberately left out of the contract).
    fn collect_triggers(&self, e: BattleEvent) -> (ids: Vec<AbilityId>)
        requires
            self.wf(),
            self.event_wf(e),
        ensures
            forall|id: AbilityId| ids@.contains(id) <==> trigger_matches(*self, id as int, e),
            no_dups(ids@),
            sorted_by_priority(*self, ids@),
    {
        let mut ids: Vec<AbilityId> = Vec::new();
        let n = self.abilities.len();
        let mut a: usize = 0;
        while a < n
            invariant
                a <= n,
                n == self.abilities.len(),
                self.wf(),
                self.event_wf(e),
                forall|id: AbilityId|
                    ids@.contains(id) <==> (trigger_matches(*self, id as int, e) && id < a),
                forall|k: int| 0 <= k < ids@.len() ==> #[trigger] ids@[k] < a,
                no_dups(ids@),
                sorted_by_priority(*self, ids@),
            decreases n - a,
        {
            let is_match = match &self.abilities[a].ability_type {
                AbilityType::Trigger(t) => t.event.match_event(&e),
                AbilityType::Active(_) => false,
            };
            let owner = self.abilities[a].owner_unit;
            proof {
                assert(self.ability_wf(a as int));
            }
            if is_match && !self.units[owner].is_dead {
                let prio = self.abilities[a].priority;
                let mut pos: usize = 0;
                while pos < ids.len()
                    invariant_except_break
                        pos <= ids@.len(),
                        self.wf(),
                        n == self.abilities.len(),
                        forall|k: int| 0 <= k < ids@.len() ==> #[trigger] ids@[k] < n,
                        forall|k: int|
                            0 <= k < pos ==> self.abilities@[(#[trigger] ids@[k]) as int].priority
                                <= prio,
                    ensures
                        pos <= ids@.len(),
                        forall|k: int|
                            0 <= k < pos ==> self.abilities@[(#[trigger] ids@[k]) as int].priority
                                <= prio,
                        pos < ids@.len() ==> prio < self.abilities@[(ids@[pos as int]) as int].priority,
                    decreases ids@.len() - pos,
                {
                    let other = ids[pos];
                    proof {
                        assert(ids@.contains(ids@[pos as int]));
                    }
                    if self.abilities[other].priority > prio {
                        break;
                    }
                    pos = pos + 1;
                }
                proof {
                    assert(sorted_by_priority(*self, ids@));
                    assert forall|k: int|
                        pos <= k < ids@.len() implies prio < self.abilities@[(
                    #[trigger] ids@[k]) as int].priority by {
                        assert(self.abilities@[ids@[pos as int] as int].priority
                            <= self.abilities@[ids@[k] as int].priority);
                    }
                    lemma_seq_insert_contains(ids@, pos as int, a as AbilityId);
                }
                let ghost before = ids@;
                ids.insert(pos, a);
                proof {
                    assert forall|i: int, j: int| 0 <= i < j < ids@.len() implies ids@[i]
                        != ids@[j] by {
                        if i < pos && j == pos {
                            assert(before.contains(before[i]));
                        } else if i == pos && j > pos {
                            assert(before.contains(before[j - 1]));
                        } else if i < pos && j > pos {
                        } else if i > pos && j > pos {
                        }
                    }
                    assert forall|i: int, j: int| 0 <= i < j < ids@.len() implies self.abilities@[(
                    ids@[i]) as int].priority <= self.abilities@[(ids@[j]) as int].priority by {}
                }
            }
            a = a + 1;
        }
        proof {
            assert forall|id: AbilityId| ids@.contains(id) implies trigger_matches(
                *self,
                id as int,
                e,
            ) by {}
            assert forall|id: AbilityId| trigger_matches(*self, id as int, e) implies ids@.contains(
                id,
            ) by {}
        }
        ids
    }

    /// Finds the first legal attack target for player `p`: the
    /// lowest-index alive enemy unit on the board.
    fn find_first_enemy(&self, p: PlayerId) -> (r: Option<UnitId>)
        requires
            self.wf(),
        ensures
            r == first_enemy_upto(self.units@, self.cards@, p, self.units@.len() as int),
            r matches Option::Some(u) ==> u < self.units.len(),
    {
        let n = self.units.len();
        let mut i: usize = 0;
        while i < n
            invariant
                i <= n,
                n == self.units.len(),
                self.wf(),
                first_enemy_upto(self.units@, self.cards@, p, i as int) is None,
            decreases n - i,
        {
            proof {
                assert(self.unit_wf(i as int));
            }
            let c = self.units[i].card;
            if !self.units[i].is_dead && self.cards[c].position.position_type
                == PositionType::Board && self.units[i].owner != p {
                proof {
                    lemma_first_enemy_found(self.units@, self.cards@, p, i as int, n as int);
                }
                return Option::Some(i);
            }
            i = i + 1;
        }
        Option::None
    }

    /// Finds the basic-attack ability instance owned by unit `u`, if any.
    pub(crate) fn find_attack_ability(&self, u: UnitId) -> (r: Option<AbilityId>)
        requires
            self.wf(),
        ensures
            r == attack_ability_upto(self.abilities@, u, self.abilities@.len() as int),
            r matches Option::Some(a) ==> a < self.abilities.len(),
    {
        let n = self.abilities.len();
        let mut i: usize = 0;
        while i < n
            invariant
                i <= n,
                n == self.abilities.len(),
                self.wf(),
                attack_ability_upto(self.abilities@, u, i as int) is None,
            decreases n - i,
        {
            if self.abilities[i].ability_data_id == crate::ability::AbilityDataId::Attack
                && self.abilities[i].owner_unit == u {
                proof {
                    lemma_attack_ability_found(self.abilities@, u, i as int, n as int);
                }
                return Option::Some(i);
            }
            i = i + 1;
        }
        Option::None
    }

    /// One advance of the turn-flow state machine.  It refuses to move
    /// while the frame stack is non-empty; on an empty stack it performs
    /// the stage's push, if any, and moves to the next stage.
    pub fn flow_system(&mut self)
        requires
            old(self).wf(),
        ensures
            final(self).wf(),
            flow_rel(*old(self), *final(self)),
    {
        if self.stacks.len() > 0 {
            return ;
        }
        let cur = self.current_player_index;
        match self.stage {
            BattleFlow::BattleStart => {
                self.stage = BattleFlow::PreTurnStart;
                proof {
                    lemma_wf_preserved(*old(self), *self);
                }
            },
            BattleFlow::PreTurnStart => {
                self.stage = BattleFlow::TurnStart;
                proof {
                    lemma_wf_preserved(*old(self), *self);
                }
                self.push_frame(
                    BattleEvent::PreTurnStart(crate::events::PreTurnStart { player: cur }),
                );
            },
            BattleFlow::TurnStart => {
                self.stage = BattleFlow::PlayerAction;
                proof {
                    lemma_wf_preserved(*old(self), *self);
                }
                self.push_frame(BattleEvent::TurnStart(crate::events::TurnStart { player: cur }));
            },
            BattleFlow::PlayerAction => {
                let is_ai = self.players[cur].controller == crate::player::PlayerController::Ai;
                if is_ai {
                    self.push_frame(
                        BattleEvent::PlayerEndTurn(crate::events::PlayerEndTurn { player: cur }),
                    );
                    let ghost head = seq![
                        BattleEvent::PlayerEndTurn(crate::events::PlayerEndTurn { player: cur }),
                    ];
                    let n = self.units.len();
                    let mut u: usize = 0;
                    while u < n
                        invariant
                            u <= n,
                            n == old(self).units.len(),
                            old(self).wf(),
                            self.wf(),
                            same_arenas(*old(self), *self),
                            self.stage == old(self).stage,
                            self.current_player_index == old(self).current_player_index,
                            cur == old(self).current_player_index,
                            cur < self.players.len(),
                            head == seq![
                                BattleEvent::PlayerEndTurn(
                                    crate::events::PlayerEndTurn { player: cur },
                                ),
                            ],
                            pushed_events(
                                old(self).stacks@,
                                self.stacks@,
                                head + ai_attack_events_upto(
                                    old(self).units@,
                                    old(self).cards@,
                                    old(self).abilities@,
                                    cur,
                                    u as int,
                                ),
                            ),
                        decreases n - u,
                    {
                        let eligible = self.units[u].owner == cur && self.units[u].ap > 0
                            && !self.units[u].is_dead;
                        let ghost before = self.stacks@;
                        let ghost sofar = head + ai_attack_events_upto(
                            old(self).units@,
                            old(self).cards@,
                            old(self).abilities@,
                            cur,
                            u as int,
                        );
                        if eligible {
                            let target = self.find_first_enemy(cur);
                            match target {
                                Option::Some(t) => {
                                    let ab = self.find_attack_ability(u);
                                    match ab {
                                        Option::Some(a) => {
                                            let ev = BattleEvent::UnitStartAbility(
                                                crate::events::UnitStartAbility {
                                                    ability: a,
                                                    source: u,
                                                    target: t,
                                                },
                                            );
                                            self.push_frame(ev);
                                            proof {
                                                lemma_pushed_events_step(
                                                    old(self).stacks@,
                                                    before,
                                                    self.stacks@,
                                                    sofar,
                                                    ev,
                                                );
                                                assert(sofar.push(ev) =~= head
                                                    + ai_attack_events_upto(
                                                    old(self).units@,
                                                    old(self).cards@,
                                                    old(self).abilities@,
                                                    cur,
                                                    u as int + 1,
                                                ));
                                            }
                                        },
                                        Option::None => {
                                            proof {
                                                assert(sofar =~= head + ai_attack_events_upto(
                                                    old(self).units@,
                                                    old(self).cards@,
                                                    old(self).abilities@,
                                                    cur,
                                                    u as int + 1,
                                                ));
                                            }
                                        },
                                    }
                                },
                                Option::None => {
                                    proof {
                                        assert(sofar =~= head + ai_attack_events_upto(
                                            old(self).units@,
                                            old(self).cards@,
                                            old(self).abilities@,
                                            cur,
                                            u as int + 1,
                                        ));
                                    }
                                },
                            }
                        } else {
                            proof {
                                assert(sofar =~= head + ai_attack_events_upto(
                                    old(self).units@,
                                    old(self).cards@,
                                    old(self).abilities@,
                                    cur,
                                    u as int + 1,
                                ));
                            }
                        }
                        u = u + 1;
                    }
                }
            },
            BattleFlow::TurnEnd => {
                self.stage = BattleFlow::PostTurnEnd;
                proof {
                    lemma_wf_preserved(*old(self), *self);
                }
            },
            BattleFlow::PostTurnEnd => {
                self.stage = BattleFlow::PlayerChange;
                proof {
                    lemma_wf_preserved(*old(self), *self);
                }
            },
            BattleFlow::PlayerChange => {
                let next = (cur + 1) % self.players.len();
                self.stage = BattleFlow::PreTurnStart;
                proof {
                    lemma_wf_preserved(*old(self), *self);
                }
                self.push_frame(
                    BattleEvent::PlayerChange(crate::events::PlayerChange { next_index: next }),
                );
            },
            BattleFlow::BattleEnd => {},
        }
    }

    /// One scheduling tick of the battle frame stack.  At most one
    /// observable event is resolved per call: the resolved event is
    /// returned so an external animation or UI layer can observe it, and
    /// `None` is returned while the stack is empty or still draining
    /// triggers.  Starting a frame scans the arena for matching triggers;
    /// each firing trigger pushes a use-ability frame that is processed —
    /// triggers included — before the frame beneath continues.
    #[verifier::rlimit(100)]
    pub fn update(&mut self) -> (r: Option<BattleEvent>)
        requires
            old(self).wf(),
        ensures
            final(self).wf(),
            update_rel(*old(self), *final(self), r),
    {
        let len = self.stacks.len();
        if len == 0 {
            return Option::None;
        }
        let top_idx = len - 1;
        let event = self.stacks[top_idx].event;
        proof {
            assert(old(self).frame_wf(old(self).stacks@[top_idx as int]));
        }
        if !self.stacks[top_idx].started {
            let mut ids = self.collect_triggers(event);
            let ghost added = ids@;
            self.stacks[top_idx].on_stacks.append(&mut ids);
            self.stacks[top_idx].started = true;
            proof {
                let top0 = old(self).stacks@[top_idx as int];
                let newtop = self.stacks@[top_idx as int];
                assert(self.stacks@.drop_last() =~= old(self).stacks@.drop_last());
                assert(newtop.on_stacks@.subrange(0, top0.on_stacks@.len() as int) =~= top0.on_stacks@);
                assert(newtop.on_stacks@.skip(top0.on_stacks@.len() as int) =~= added);
                assert forall|k: int| 0 <= k < self.stacks@.len() implies old(self).frame_wf(
                    #[trigger] self.stacks@[k],
                ) by {
                    assert(old(self).frame_wf(old(self).stacks@[k]));
                    if k == top_idx as int {
                        assert forall|i: int| 0 <= i < newtop.on_stacks@.len() implies ((
                        #[trigger] newtop.on_stacks@[i]) < old(self).abilities.len() && old(
                            self,
                        ).abilities@[newtop.on_stacks@[i] as int].ability_type is Trigger) by {
                            if i < top0.on_stacks@.len() {
                                assert(top0.on_stacks@[i] == newtop.on_stacks@[i]);
                            } else {
                                let id = newtop.on_stacks@[i];
                                assert(added[i - top0.on_stacks@.len()] == id);
                                assert(added.contains(id));
                                assert(trigger_matches(*old(self), id as int, event));
                            }
                        }
                    }
                }
                lemma_wf_preserved(*old(self), *self);
            }
            return Option::None;
        }
        let ghost pre = *old(self);
        let ghost top0 = pre.stacks@[top_idx as int];
        while self.stacks[top_idx].on_stacks.len() > 0
            invariant
                pre == *old(self),
                pre.wf(),
                self.wf(),
                top_idx < pre.stacks@.len(),
                top_idx as int == pre.stacks@.len() - 1,
                top0 == pre.stacks@[top_idx as int],
                event == top0.event,
                top0.started,
                self.stacks@.len() == pre.stacks@.len(),
                same_arenas(pre, *self),
                self.stage == pre.stage,
                self.current_player_index == pre.current_player_index,
                self.stacks@.drop_last() == pre.stacks@.drop_last(),
                self.stacks@[top_idx as int].event == top0.event,
                self.stacks@[top_idx as int].started == top0.started,
                self.stacks@[top_idx as int].on_stacks@ == top0.on_stacks@.subrange(
                    0,
                    self.stacks@[top_idx as int].on_stacks@.len() as int,
                ),
                self.stacks@[top_idx as int].on_stacks@.len() <= top0.on_stacks@.len(),
                first_firing(pre, self.stacks@[top_idx as int].on_stacks@, event)
                    == first_firing(pre, top0.on_stacks@, event),
            decreases self.stacks@[top_idx as int].on_stacks@.len(),
        {
            let ghost it0 = *self;
            let ghost stk_before = self.stacks@[top_idx as int].on_stacks@;
            proof {
                assert(self.frame_wf(self.stacks@[top_idx as int]));
                assert(stk_before[stk_before.len() - 1] < self.abilities.len());
            }
            let aid_opt = self.stacks[top_idx].on_stacks.pop();
            let aid = match aid_opt {
                Option::Some(a) => a,
                Option::None => {
                    proof {
                        assert(false);
                    }
                    0
                },
            };
            proof {
                assert(aid == stk_before.last());
                assert(it0.abilities@[aid as int].ability_type is Trigger);
                assert(self.stacks@[top_idx as int].on_stacks@ =~= stk_before.drop_last());
                assert(self.stacks@[top_idx as int].on_stacks@ =~= top0.on_stacks@.subrange(
                    0,
                    stk_before.len() - 1,
                ));
                assert forall|k: int| 0 <= k < self.stacks@.len() implies it0.frame_wf(
                    #[trigger] self.stacks@[k],
                ) by {
                    if k == top_idx as int {
                        assert(it0.frame_wf(it0.stacks@[k]));
                        assert forall|i: int|
                            0 <= i < self.stacks@[k].on_stacks@.len() implies ((
                        #[trigger] self.stacks@[k].on_stacks@[i]) < it0.abilities.len()
                            && it0.abilities@[self.stacks@[k].on_stacks@[i] as int].ability_type
                            is Trigger) by {
                            assert(self.stacks@[k].on_stacks@[i] == stk_before[i]);
                            assert(it0.frame_wf(it0.stacks@[k]));
                        }
                    } else {
                        assert(self.stacks@[k] == it0.stacks@[k]);
                        assert(it0.frame_wf(it0.stacks@[k]));
                    }
                }
                lemma_wf_preserved(it0, *self);
            }
            let is_match = match &self.abilities[aid].ability_type {
                AbilityType::Trigger(t) => t.event.match_event(&event),
                AbilityType::Active(_) => {
                    proof {
                        assert(false);
                    }
                    false
                },
            };
            let abu = self.abilities[aid].owner_unit;
            proof {
                assert(self.ability_wf(aid as int));
                assert(self.event_wf(event)) by {
                    assert(pre.frame_wf(top0));
                }
            }
            let alive = !self.units[abu].is_dead;
            let fires = is_match && alive && self.eval_conditions(aid, event);
            proof {
                assert(fires == trigger_fires(*self, aid as int, event));
                lemma_trigger_fires_same_arenas(*self, pre, aid as int, event);
                assert(fires == trigger_fires(pre, aid as int, event));
            }
            if fires {
                let tu = self.trigger_unit_exec(event, abu);
                let ghost mid = *self;
                self.stacks.push(
                    BattleFrame {
                        event: BattleEvent::UnitStartAbility(
                            crate::events::UnitStartAbility { ability: aid, source: abu, target: tu },
                        ),
                        on_stacks: Vec::new(),
                        started: false,
                    },
                );
                proof {
                    let i = stk_before.len() - 1;
                    assert(top0.on_stacks@.subrange(0, i + 1) =~= stk_before);
                    assert(first_firing(pre, stk_before, event) == Option::Some(i));
                    assert(top0.on_stacks@[i] == aid);
                    assert(tu == trigger_unit_of(pre, event, abu)) by {
                        assert forall|p: int| mid.primary_unit(p) == pre.primary_unit(p) by {}
                        match event {
                            BattleEvent::SummonUnit(x) => {
                                assert(mid.cards@[x.card as int] == pre.cards@[x.card as int]);
                            },
                            _ => {},
                        }
                    }
                    assert(self.stacks@.subrange(0, pre.stacks@.len() - 1) =~= pre.stacks@.drop_last()) by {
                        assert forall|k: int| 0 <= k < pre.stacks@.len() - 1 implies self.stacks@[k]
                            == pre.stacks@.drop_last()[k] by {
                            assert(self.stacks@[k] == mid.stacks@[k]);
                            assert(mid.stacks@[k] == mid.stacks@.drop_last()[k]);
                        }
                    }
                    assert(trigger_pushed_rel(pre, *self, i));
                    assert forall|k: int| 0 <= k < self.stacks@.len() implies mid.frame_wf(
                        #[trigger] self.stacks@[k],
                    ) by {
                        if k < mid.stacks@.len() {
                            assert(mid.frame_wf(mid.stacks@[k]));
                        }
                    }
                    lemma_wf_preserved(mid, *self);
                }
                return Option::None;
            }
            proof {
                assert(first_firing(pre, stk_before, event) == first_firing(
                    pre,
                    stk_before.drop_last(),
                    event,
                ));
            }
        }
        proof {
            assert(self.stacks@[top_idx as int].on_stacks@ =~= Seq::<AbilityId>::empty());
            assert(first_firing(pre, top0.on_stacks@, event) is None);
        }
        let ghost at_exit = *self;
        let _ = self.stacks.pop();
        proof {
            assert forall|k: int| 0 <= k < self.stacks@.len() implies at_exit.frame_wf(
                #[trigger] self.stacks@[k],
            ) by {
                assert(self.stacks@[k] == at_exit.stacks@[k]);
                assert(at_exit.frame_wf(at_exit.stacks@[k]));
            }
            lemma_wf_preserved(at_exit, *self);
            assert(self.stacks@ =~= pre.stacks@.drop_last()) by {
                assert forall|k: int| 0 <= k < pre.stacks@.len() - 1 implies self.stacks@[k]
                    == pre.stacks@.drop_last()[k] by {
                    assert(self.stacks@[k] == at_exit.stacks@.drop_last()[k]);
                    assert(at_exit.stacks@.drop_last()[k] == at_exit.stacks@[k]);
                    assert(at_exit.stacks@[k] == pre.stacks@[k]);
                }
            }
            assert(pre.frame_wf(top0));
        }
        let ghost popped = *self;
        match event {
            BattleEvent::PreTurnStart(x) => {
                self.resolve_pre_turn_start(x.player);
                proof {
                    assert(pre_turn_rel(pre, *self, pre.stacks@.drop_last(), x.player));
                }
            },
            BattleEvent::TurnStart(x) => {
                self.push_frame(
                    BattleEvent::PlayerDraw(crate::events::PlayerDraw { player: x.player, c: 1 }),
                );
                proof {
                    assert(turn_start_rel(pre, *self, pre.stacks@.drop_last(), x.player));
                }
            },
            BattleEvent::TurnEnd(_) => {
                proof {
                    assert(self.stacks@.subrange(0, self.stacks@.len() as int) =~= self.stacks@);
                    assert(emit_only_rel(pre, *self, pre.stacks@.drop_last()));
                }
            },
            BattleEvent::PostTurnEnd(_) => {
                proof {
                    assert(self.stacks@.subrange(0, self.stacks@.len() as int) =~= self.stacks@);
                    assert(emit_only_rel(pre, *self, pre.stacks@.drop_last()));
                }
            },
            BattleEvent::PlayerChange(x) => {
                self.current_player_index = x.next_index;
                proof {
                    assert(self.stacks@.subrange(0, self.stacks@.len() as int) =~= self.stacks@);
                    lemma_wf_preserved(popped, *self);
                    assert(player_change_rel(pre, *self, pre.stacks@.drop_last(), x.next_index));
                }
            },
            BattleEvent::PlayerDraw(x) => {
                self.resolve_player_draw(x.player, x.c);
                proof {
                    assert(draw_rel(pre, *self, pre.stacks@.drop_last(), x.player, x.c));
                }
            },
            BattleEvent::PlayerEndTurn(_) => {
                self.stage = BattleFlow::TurnEnd;
                proof {
                    assert(self.stacks@.subrange(0, self.stacks@.len() as int) =~= self.stacks@);
                    lemma_wf_preserved(popped, *self);
                    assert(end_turn_rel(pre, *self, pre.stacks@.drop_last()));
                }
            },
            BattleEvent::UnitHurt(x) => {
                self.resolve_unit_hurt(x.source, x.target, x.value);
                proof {
                    assert(hurt_rel(pre, *self, pre.stacks@.drop_last(), x.source, x.target, x.value));
                }
            },
            BattleEvent::UnitDie(x) => {
                self.resolve_unit_die(x.dead, x.killer);
                proof {
                    lemma_primary_same(popped, pre);
                    assert(die_rel(pre, *self, pre.stacks@.drop_last(), x.dead, x.killer));
                }
            },
            BattleEvent::UnitStartAbility(x) => {
                self.resolve_unit_start_ability(x.ability, x.source, x.target);
                proof {
                    assert(start_ability_rel(
                        pre,
                        *self,
                        pre.stacks@.drop_last(),
                        x.ability,
                        x.source,
                        x.target,
                    ));
                }
            },
            BattleEvent::UnitCombat(x) => {
                self.resolve_unit_combat(x.source, x.target);
                proof {
                    assert(combat_rel(pre, *self, pre.stacks@.drop_last(), x.source, x.target));
                }
            },
            BattleEvent::AbilityStart(x) => {
                self.resolve_ability_start(x.ability, x.source, x.target);
                proof {
                    assert(ability_start_rel(
                        pre,
                        *self,
                        pre.stacks@.drop_last(),
                        x.ability,
                        x.source,
                        x.target,
                    ));
                }
            },
            BattleEvent::SummonUnit(x) => {
                self.resolve_summon_unit(x.card, x.position);
                proof {
                    assert(summon_rel(pre, *self, pre.stacks@.drop_last(), x.card, x.position));
                }
            },
        }
        Option::Some(event)
    }

    /// Resolves a summon event: moves the card onto the board at the
    /// event's coordinates.
    fn resolve_summon_unit(&mut self, card: CardId, position: Position)
        requires
            old(self).wf(),
            card < old(self).cards.len(),
        ensures
            final(self).wf(),
            summon_rel(*old(self), *final(self), old(self).stacks@, card, position),
    {
        self.move_card(card, PositionType::Board, position.x, position.y);
        proof {
            assert(self.stacks@.subrange(0, self.stacks@.len() as int) =~= self.stacks@);
        }
    }

    /// Resolves a combat event: computes both damage figures from the
    /// pre-combat statistics of both units and pushes the two hurt frames,
    /// the attacker's incoming damage on top.
    fn resolve_unit_combat(&mut self, source: UnitId, target: UnitId)
        requires
            old(self).wf(),
            source < old(self).units.len(),
            target < old(self).units.len(),
        ensures
            final(self).wf(),
            combat_rel(*old(self), *final(self), old(self).stacks@, source, target),
    {
        let att_atk = self.units[source].atk;
        let att_def = self.units[source].def;
        let vic_atk = self.units[target].atk;
        let vic_def = self.units[target].def;
        let to_target = BattleEvent::UnitHurt(
            UnitHurt { source, target, value: damage(att_atk, vic_def) },
        );
        let to_source = BattleEvent::UnitHurt(
            UnitHurt { source: target, target: source, value: damage(vic_atk, att_def) },
        );
        self.push_frame(to_target);
        let ghost mid = self.stacks@;
        self.push_frame(to_source);
        proof {
            let s0 = old(self).stacks@;
            let s2 = self.stacks@;
            assert(mid.subrange(0, s0.len() as int) == s0);
            assert(s2.subrange(0, mid.len() as int) == mid);
            assert forall|i: int| 0 <= i < mid.len() implies s2[i] == mid[i] by {
                assert(s2[i] == s2.subrange(0, mid.len() as int)[i]);
            }
            assert(s2.subrange(0, s0.len() as int) =~= s0);
            assert(is_fresh_frame(s2[s0.len() as int], to_target)) by {
                assert(seq![to_target][0] == to_target);
                assert(is_fresh_frame(mid[s0.len() as int + 0], seq![to_target][0]));
            }
            assert(is_fresh_frame(s2[s0.len() as int + 1], to_source)) by {
                assert(seq![to_source][0] == to_source);
                assert(is_fresh_frame(s2[mid.len() as int + 0], seq![to_source][0]));
            }
        }
    }
}

} // verus!
