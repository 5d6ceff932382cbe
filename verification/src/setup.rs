//! Loading the game roster and setting a battle up from it.
//!
//! The pre-battle [`GameStore`] holds loaded cards, units, abilities and
//! players; [`load_game`] fills it with the fixed roster.  [`start_battle`]
//! copies everything reachable from the players into fresh battle-time
//! instances: one card, unit and ability instance per loaded reference,
//! decks laid out bottom-up, each character card on its board.

use vstd::prelude::*;
use crate::ability::{Ability, AbilityDataId, AbilityInstance, AbilityType, Trigger};
use crate::battle::{
    card_in_zone, zone_count_upto, Battle, BattleFlow,
};
use crate::card::{Card, CardDataId, CardInstance, CardInstanceType, CardType};
use crate::ids::{AbilityId, PlayerId};
use crate::player::{Player, PlayerController, PlayerInstance};
use crate::position::{Position, PositionType};
use crate::unit::{Status, Unit, UnitInstance};

verus! {

/// The pre-battle store of loaded data, with players referencing loaded
/// cards, cards referencing loaded units, and units referencing loaded
/// abilities, all by index.
#[derive(Debug)]
pub struct GameStore {
    pub cards: Vec<Card>,
    pub units: Vec<Unit>,
    pub abilities: Vec<Ability>,
    pub players: Vec<Player>,
}

impl GameStore {
    /// Every stored index is valid.
    pub open spec fn wf(self) -> bool {
        &&& forall|c: int|
            0 <= c < self.cards@.len() ==> match (#[trigger] self.cards@[c]).card_type {
                CardType::Unit(u) => u < self.units@.len(),
            }
        &&& forall|u: int, i: int|
            0 <= u < self.units@.len() && 0 <= i < self.units@[u].abilities@.len()
                ==> (#[trigger] self.units@[u].abilities@[i]) < self.abilities@.len()
        &&& forall|p: int|
            0 <= p < self.players@.len() ==> {
                &&& (#[trigger] self.players@[p]).character_card < self.cards@.len()
                &&& forall|i: int|
                    0 <= i < self.players@[p].decks@.len() ==> (
                    #[trigger] self.players@[p].decks@[i]) < self.cards@.len()
            }
        &&& forall|a: int| 0 <= a < self.abilities@.len() ==> (#[trigger] self.abilities@[a]).ap
            >= 0
    }
}

/// Loads one ability into the store; returns its index.
fn spawn_ability(store: &mut GameStore, ability_data_id: AbilityDataId) -> (idx: usize)
    requires
        old(store).wf(),
    ensures
        final(store).wf(),
        final(store).cards@ == old(store).cards@,
        final(store).units@ == old(store).units@,
        final(store).players@ == old(store).players@,
        final(store).abilities@.len() == old(store).abilities@.len() + 1,
        idx == old(store).abilities@.len(),
{
    let idx = store.abilities.len();
    store.abilities.push(Ability::new(ability_data_id));
    proof {
        assert forall|a: int| 0 <= a < store.abilities@.len() implies (
        #[trigger] store.abilities@[a]).ap >= 0 by {
            if a < old(store).abilities@.len() {
                assert(old(store).abilities@[a].ap >= 0);
            }
        }
        assert forall|u: int, i: int|
            0 <= u < store.units@.len() && 0 <= i < store.units@[u].abilities@.len() implies (
        #[trigger] store.units@[u].abilities@[i]) < store.abilities@.len() by {
            assert(old(store).units@[u].abilities@[i] < old(store).abilities@.len());
        }
    }
    idx
}

/// Loads one unit and its abilities into the store; returns the unit's
/// index.
fn spawn_unit(store: &mut GameStore, unit_data_id: crate::unit::UnitDataId) -> (idx: usize)
    requires
        old(store).wf(),
    ensures
        final(store).wf(),
        final(store).cards@ == old(store).cards@,
        final(store).players@ == old(store).players@,
        final(store).units@.len() == old(store).units@.len() + 1,
        idx == old(store).units@.len(),
{
    let data = unit_data_id.unit_data();
    let mut ability_ids: Vec<usize> = Vec::new();
    let n = data.abilities.len();
    let mut k: usize = 0;
    while k < n
        invariant
            k <= n,
            n == data.abilities@.len(),
            store.wf(),
            store.cards@ == old(store).cards@,
            store.units@ == old(store).units@,
            store.players@ == old(store).players@,
            forall|i: int|
                0 <= i < ability_ids@.len() ==> (#[trigger] ability_ids@[i])
                    < store.abilities@.len(),
        decreases n - k,
    {
        let aid = spawn_ability(store, data.abilities[k]);
        ability_ids.push(aid);
        k = k + 1;
    }
    let idx = store.units.len();
    store.units.push(Unit::new(unit_data_id, ability_ids));
    proof {
        assert forall|u: int, i: int|
            0 <= u < store.units@.len() && 0 <= i < store.units@[u].abilities@.len() implies (
        #[trigger] store.units@[u].abilities@[i]) < store.abilities@.len() by {
            if u < old(store).units@.len() {
                assert(old(store).units@[u].abilities@[i] < old(store).abilities@.len());
            }
        }
        assert forall|c: int|
            0 <= c < store.cards@.len() implies match (#[trigger] store.cards@[c]).card_type {
            CardType::Unit(u) => u < store.units@.len(),
        } by {
            assert(match old(store).cards@[c].card_type {
                CardType::Unit(u) => u < old(store).units@.len(),
            });
        }
    }
    idx
}

/// Loads one card, its unit and that unit's abilities into the store;
/// returns the card's index.
fn spawn_card(store: &mut GameStore, card_data_id: CardDataId) -> (idx: usize)
    requires
        old(store).wf(),
    ensures
        final(store).wf(),
        final(store).players@ == old(store).players@,
        final(store).cards@.len() == old(store).cards@.len() + 1,
        idx == old(store).cards@.len(),
        forall|c: int|
            0 <= c < old(store).cards@.len() ==> #[trigger] final(store).cards@[c] == old(
                store,
            ).cards@[c],
        final(store).cards@[idx as int].card_data_id == card_data_id,
{
    let data = card_data_id.card_data();
    let unit_idx = match data.card_type {
        crate::card::CardDataType::Unit(unit_data_id) => spawn_unit(store, unit_data_id),
    };
    let idx = store.cards.len();
    store.cards.push(Card::new(card_data_id, CardType::Unit(unit_idx)));
    proof {
        assert forall|c: int|
            0 <= c < store.cards@.len() implies match (#[trigger] store.cards@[c]).card_type {
            CardType::Unit(u) => u < store.units@.len(),
        } by {
            if c < store.cards@.len() - 1 {
                assert(store.cards@[c] == old(store).cards@[c]);
            }
        }
        assert forall|p: int|
            0 <= p < store.players@.len() implies {
            &&& (#[trigger] store.players@[p]).character_card < store.cards@.len()
            &&& forall|i: int|
                0 <= i < store.players@[p].decks@.len() ==> (
                #[trigger] store.players@[p].decks@[i]) < store.cards@.len()
        } by {
            assert(old(store).players@[p].character_card < old(store).cards@.len());
            assert forall|i: int|
                0 <= i < store.players@[p].decks@.len() implies (
            #[trigger] store.players@[p].decks@[i]) < store.cards@.len() by {
                assert(old(store).players@[p].decks@[i] < old(store).cards@.len());
            }
        }
    }
    idx
}

/// Zone counts only read the prefix they are taken over.
proof fn lemma_zone_count_prefix(
    s1: Seq<CardInstance>,
    s2: Seq<CardInstance>,
    p: PlayerId,
    zt: PositionType,
    n: int,
)
    requires
        n <= s1.len(),
        n <= s2.len(),
        forall|k: int| 0 <= k < n ==> s2[k] == s1[k],
    ensures
        zone_count_upto(s2, p, zt, n) == zone_count_upto(s1, p, zt, n),
    decreases n,
{
    if n > 0 {
        lemma_zone_count_prefix(s1, s2, p, zt, n - 1);
    }
}

/// Zone counts grow with the prefix.
proof fn lemma_zone_count_mono(s: Seq<CardInstance>, p: PlayerId, zt: PositionType, m: int, n: int)
    requires
        m <= n,
    ensures
        zone_count_upto(s, p, zt, m) <= zone_count_upto(s, p, zt, n),
    decreases n - m,
{
    if m < n {
        lemma_zone_count_mono(s, p, zt, m, n - 1);
    }
}

/// Every card's stacking order equals the count of earlier cards in its
/// zone: the layout [`start_battle`] produces.
#[verifier::opaque]
pub open spec fn serial_dense(cards: Seq<CardInstance>) -> bool {
    forall|c: int|
        0 <= c < cards.len() ==> (#[trigger] cards[c]).position.z as int == zone_count_upto(
            cards,
            cards[c].position.player_id,
            cards[c].position.position_type,
            c,
        )
}

/// Serial stacking orders are dense.
proof fn lemma_serial_dense(b: Battle)
    requires
        serial_dense(b.cards@),
    ensures
        b.zones_dense(),
{
    reveal(serial_dense);
    let cards = b.cards@;
    let n = cards.len() as int;
    assert forall|i: int|
        0 <= i < cards.len() implies 0 <= (#[trigger] cards[i]).position.z < b.zone_count(
        cards[i].position.player_id,
        cards[i].position.position_type,
    ) by {
        let p = cards[i].position.player_id;
        let zt = cards[i].position.position_type;
        crate::battle::lemma_zone_count_bounds(cards, p, zt, i);
        assert(card_in_zone(cards[i], p, zt));
        assert(zone_count_upto(cards, p, zt, i + 1) == zone_count_upto(cards, p, zt, i) + 1);
        lemma_zone_count_mono(cards, p, zt, i + 1, n);
    }
    assert forall|i: int, j: int|
        0 <= i < cards.len() && 0 <= j < cards.len() && i != j && card_in_zone(
            #[trigger] cards[i],
            cards[j].position.player_id,
            cards[j].position.position_type,
        ) implies cards[i].position.z != (#[trigger] cards[j]).position.z by {
        let p = cards[j].position.player_id;
        let zt = cards[j].position.position_type;
        if i < j {
            assert(card_in_zone(cards[i], p, zt));
            assert(zone_count_upto(cards, p, zt, i + 1) == zone_count_upto(cards, p, zt, i) + 1);
            lemma_zone_count_mono(cards, p, zt, i + 1, j);
        } else {
            assert(card_in_zone(cards[j], p, zt));
            assert(zone_count_upto(cards, p, zt, j + 1) == zone_count_upto(cards, p, zt, j) + 1);
            lemma_zone_count_mono(cards, p, zt, j + 1, i);
        }
    }
}

/// The mutual well-formedness of partially built battle arenas, with
/// `nplayers` players already in place.
#[verifier::opaque]
pub open spec fn arenas_wf(
    units: Seq<UnitInstance>,
    abilities: Seq<AbilityInstance>,
    cards: Seq<CardInstance>,
    nplayers: int,
) -> bool {
    &&& arenas_refs_wf(units, abilities, cards, nplayers)
    &&& serial_dense(cards)
}

/// The reference part of the arenas' well-formedness: every stored index
/// is valid and units and cards point back at each other.
pub open spec fn arenas_refs_wf(
    units: Seq<UnitInstance>,
    abilities: Seq<AbilityInstance>,
    cards: Seq<CardInstance>,
    nplayers: int,
) -> bool {
    &&& forall|u: int|
        0 <= u < units.len() ==> {
            &&& (#[trigger] units[u]).owner < nplayers
            &&& units[u].card < cards.len()
            &&& cards[units[u].card as int].card_type == CardInstanceType::UnitInstance(
                u as usize,
            )
            &&& cards[units[u].card as int].position.player_id == units[u].owner
            &&& forall|i: int|
                0 <= i < units[u].abilities@.len() ==> (#[trigger] units[u].abilities@[i])
                    < abilities.len()
        }
    &&& forall|c: int|
        0 <= c < cards.len() ==> {
            &&& (#[trigger] cards[c]).position.player_id < nplayers
            &&& match cards[c].card_type {
                CardInstanceType::UnitInstance(u) => u < units.len() && units[u as int].card == c,
            }
        }
    &&& forall|a: int|
        0 <= a < abilities.len() ==> (#[trigger] abilities[a]).owner_unit < units.len()
            && abilities[a].ap >= 0
}

/// Two ability types with the same shape, compared up to views.
pub open spec fn ability_type_matches(a: AbilityType, b: AbilityType) -> bool {
    match (a, b) {
        (AbilityType::Active(x), AbilityType::Active(y)) => x == y,
        (AbilityType::Trigger(t1), AbilityType::Trigger(t2)) => t1.event == t2.event
            && t1.conditions@ == t2.conditions@,
        _ => false,
    }
}

/// Copies an effect list element by element.
fn clone_effects(v: &Vec<(crate::ability::EffectTarget, crate::ability::AbilityEffect)>) -> (r: Vec<
    (crate::ability::EffectTarget, crate::ability::AbilityEffect),
>)
    ensures
        r@ == v@,
{
    let mut r: Vec<(crate::ability::EffectTarget, crate::ability::AbilityEffect)> = Vec::new();
    let n = v.len();
    let mut i: usize = 0;
    while i < n
        invariant
            i <= n,
            n == v@.len(),
            r@ == v@.subrange(0, i as int),
        decreases n - i,
    {
        r.push(v[i]);
        proof {
            assert(r@ =~= v@.subrange(0, i as int + 1));
        }
        i = i + 1;
    }
    proof {
        assert(v@.subrange(0, n as int) =~= v@);
    }
    r
}

/// Copies a condition list element by element.
fn clone_conditions(v: &Vec<crate::ability::TriggerCondition>) -> (r: Vec<
    crate::ability::TriggerCondition,
>)
    ensures
        r@ == v@,
{
    let mut r: Vec<crate::ability::TriggerCondition> = Vec::new();
    let n = v.len();
    let mut i: usize = 0;
    while i < n
        invariant
            i <= n,
            n == v@.len(),
            r@ == v@.subrange(0, i as int),
        decreases n - i,
    {
        r.push(v[i]);
        proof {
            assert(r@ =~= v@.subrange(0, i as int + 1));
        }
        i = i + 1;
    }
    proof {
        assert(v@.subrange(0, n as int) =~= v@);
    }
    r
}

/// Copies an ability type field by field.
fn clone_ability_type(t: &AbilityType) -> (r: AbilityType)
    ensures
        ability_type_matches(*t, r),
{
    match t {
        AbilityType::Active(ts) => AbilityType::Active(*ts),
        AbilityType::Trigger(tr) => {
            let conditions = clone_conditions(&tr.conditions);
            AbilityType::Trigger(Trigger { event: tr.event, conditions })
        },
    }
}

/// Creates the battle instance of one loaded ability, owned by
/// `owner_unit`.
fn instantiate_ability(ability: &Ability, ability_id: usize, owner_unit: usize) -> (r:
    AbilityInstance)
    ensures
        r.priority == ability.priority,
        r.name@ == ability.name@,
        r.description@ == ability.description@,
        ability_type_matches(ability.ability_type, r.ability_type),
        r.effects@ == ability.effects@,
        r.ap == ability.ap,
        r.ability_data_id == ability.ability_data_id,
        r.ability_id == ability_id,
        r.owner_unit == owner_unit,
{
    let effects = clone_effects(&ability.effects);
    AbilityInstance {
        priority: ability.priority,
        name: ability.name.clone(),
        description: ability.description.clone(),
        ability_type: clone_ability_type(&ability.ability_type),
        effects,
        ap: ability.ap,
        ability_data_id: ability.ability_data_id,
        ability_id,
        owner_unit,
    }
}

/// Appending one card, its unit and its ability instances preserves the
/// arenas' mutual well-formedness.
/// Appending one card, its unit and its ability instances keeps every
/// stored index valid.
#[verifier::rlimit(100)]
#[verifier::spinoff_prover]
proof fn lemma_refs_after_spawn(
    units0: Seq<UnitInstance>,
    abilities0: Seq<AbilityInstance>,
    cards0: Seq<CardInstance>,
    units1: Seq<UnitInstance>,
    abilities1: Seq<AbilityInstance>,
    cards1: Seq<CardInstance>,
    nplayers: int,
    owner: PlayerId,
    zt: PositionType,
)
    requires
        owner < nplayers,
        units0.len() <= usize::MAX,
        cards0.len() <= usize::MAX,
        units1.len() == units0.len() + 1,
        cards1.len() == cards0.len() + 1,
        abilities1.len() >= abilities0.len(),
        forall|k: int| 0 <= k < units0.len() ==> units1[k] == units0[k],
        forall|k: int| 0 <= k < cards0.len() ==> cards1[k] == cards0[k],
        forall|k: int| 0 <= k < abilities0.len() ==> abilities1[k] == abilities0[k],
        forall|a: int|
            abilities0.len() <= a < abilities1.len() ==> (#[trigger] abilities1[a]).owner_unit
                == units0.len() && abilities1[a].ap >= 0,
        units1[units0.len() as int].owner == owner,
        units1[units0.len() as int].card == cards0.len(),
        forall|i: int|
            0 <= i < units1[units0.len() as int].abilities@.len() ==> (
            #[trigger] units1[units0.len() as int].abilities@[i]) < abilities1.len(),
        cards1[cards0.len() as int].card_type == CardInstanceType::UnitInstance(
            units0.len() as usize,
        ),
        cards1[cards0.len() as int].position.player_id == owner,
        cards1[cards0.len() as int].position.position_type == zt,
        cards1[cards0.len() as int].position.z as int == zone_count_upto(
            cards0,
            owner,
            zt,
            cards0.len() as int,
        ),
        arenas_refs_wf(units0, abilities0, cards0, nplayers),
    ensures
        arenas_refs_wf(units1, abilities1, cards1, nplayers),
{
    assert forall|u: int|
        0 <= u < units1.len() implies {
        &&& (#[trigger] units1[u]).owner < nplayers
        &&& units1[u].card < cards1.len()
        &&& cards1[units1[u].card as int].card_type == CardInstanceType::UnitInstance(u as usize)
        &&& cards1[units1[u].card as int].position.player_id == units1[u].owner
        &&& forall|i: int|
            0 <= i < units1[u].abilities@.len() ==> (#[trigger] units1[u].abilities@[i])
                < abilities1.len()
    } by {
        if u < units0.len() {
            assert(units1[u] == units0[u]);
            assert(cards1[units0[u].card as int] == cards0[units0[u].card as int]);
            assert forall|i: int|
                0 <= i < units1[u].abilities@.len() implies (#[trigger] units1[u].abilities@[i])
                < abilities1.len() by {
                assert(units0[u].abilities@[i] < abilities0.len());
            }
        }
    }
    assert forall|c: int|
        0 <= c < cards1.len() implies {
        &&& (#[trigger] cards1[c]).position.player_id < nplayers
        &&& match cards1[c].card_type {
            CardInstanceType::UnitInstance(u) => u < units1.len() && units1[u as int].card == c,
        }
    } by {
        if c < cards0.len() {
            assert(cards1[c] == cards0[c]);
            match cards0[c].card_type {
                CardInstanceType::UnitInstance(u) => {
                    assert(u < units0.len());
                    assert(units0[u as int].card == c);
                    assert(units1[u as int] == units0[u as int]);
                },
            }
        } else {
            assert(c == cards0.len());
            match cards1[c].card_type {
                CardInstanceType::UnitInstance(u) => {
                    assert(u == units0.len());
                    assert(units1[u as int].card == c);
                },
            }
        }
    }
    assert forall|a: int| 0 <= a < abilities1.len() implies (#[trigger] abilities1[a]).owner_unit
        < units1.len() && abilities1[a].ap >= 0 by {
        if a < abilities0.len() {
            assert(abilities1[a] == abilities0[a]);
            assert(abilities0[a].owner_unit < units0.len());
            assert(abilities0[a].ap >= 0);
        }
    }
}

/// Appending one card at the end of its zone's stacking order keeps every
/// stacking order serial.
#[verifier::rlimit(100)]
#[verifier::spinoff_prover]
proof fn lemma_serial_after_spawn(
    units0: Seq<UnitInstance>,
    abilities0: Seq<AbilityInstance>,
    cards0: Seq<CardInstance>,
    units1: Seq<UnitInstance>,
    abilities1: Seq<AbilityInstance>,
    cards1: Seq<CardInstance>,
    nplayers: int,
    owner: PlayerId,
    zt: PositionType,
)
    requires
        owner < nplayers,
        units0.len() <= usize::MAX,
        cards0.len() <= usize::MAX,
        units1.len() == units0.len() + 1,
        cards1.len() == cards0.len() + 1,
        abilities1.len() >= abilities0.len(),
        forall|k: int| 0 <= k < units0.len() ==> units1[k] == units0[k],
        forall|k: int| 0 <= k < cards0.len() ==> cards1[k] == cards0[k],
        forall|k: int| 0 <= k < abilities0.len() ==> abilities1[k] == abilities0[k],
        forall|a: int|
            abilities0.len() <= a < abilities1.len() ==> (#[trigger] abilities1[a]).owner_unit
                == units0.len() && abilities1[a].ap >= 0,
        units1[units0.len() as int].owner == owner,
        units1[units0.len() as int].card == cards0.len(),
        forall|i: int|
            0 <= i < units1[units0.len() as int].abilities@.len() ==> (
            #[trigger] units1[units0.len() as int].abilities@[i]) < abilities1.len(),
        cards1[cards0.len() as int].card_type == CardInstanceType::UnitInstance(
            units0.len() as usize,
        ),
        cards1[cards0.len() as int].position.player_id == owner,
        cards1[cards0.len() as int].position.position_type == zt,
        cards1[cards0.len() as int].position.z as int == zone_count_upto(
            cards0,
            owner,
            zt,
            cards0.len() as int,
        ),
        serial_dense(cards0),
    ensures
        serial_dense(cards1),
{
    reveal(serial_dense);
    assert forall|c: int|
        0 <= c < cards1.len() implies (#[trigger] cards1[c]).position.z as int == zone_count_upto(
        cards1,
        cards1[c].position.player_id,
        cards1[c].position.position_type,
        c,
    ) by {
        if c < cards0.len() {
            assert(cards1[c] == cards0[c]);
            assert(cards0[c].position.z as int == zone_count_upto(
                cards0,
                cards0[c].position.player_id,
                cards0[c].position.position_type,
                c,
            ));
            lemma_zone_count_prefix(
                cards0,
                cards1,
                cards1[c].position.player_id,
                cards1[c].position.position_type,
                c,
            );
        } else {
            lemma_zone_count_prefix(cards0, cards1, owner, zt, cards0.len() as int);
        }
    }
}

/// Appending one card, its unit and its ability instances preserves the
/// arenas' mutual well-formedness.
#[verifier::rlimit(100)]
#[verifier::spinoff_prover]
proof fn lemma_arenas_after_spawn(
    units0: Seq<UnitInstance>,
    abilities0: Seq<AbilityInstance>,
    cards0: Seq<CardInstance>,
    units1: Seq<UnitInstance>,
    abilities1: Seq<AbilityInstance>,
    cards1: Seq<CardInstance>,
    nplayers: int,
    owner: PlayerId,
    zt: PositionType,
)
    requires
        owner < nplayers,
        units0.len() <= usize::MAX,
        cards0.len() <= usize::MAX,
        units1.len() == units0.len() + 1,
        cards1.len() == cards0.len() + 1,
        abilities1.len() >= abilities0.len(),
        forall|k: int| 0 <= k < units0.len() ==> units1[k] == units0[k],
        forall|k: int| 0 <= k < cards0.len() ==> cards1[k] == cards0[k],
        forall|k: int| 0 <= k < abilities0.len() ==> abilities1[k] == abilities0[k],
        forall|a: int|
            abilities0.len() <= a < abilities1.len() ==> (#[trigger] abilities1[a]).owner_unit
                == units0.len() && abilities1[a].ap >= 0,
        units1[units0.len() as int].owner == owner,
        units1[units0.len() as int].card == cards0.len(),
        forall|i: int|
            0 <= i < units1[units0.len() as int].abilities@.len() ==> (
            #[trigger] units1[units0.len() as int].abilities@[i]) < abilities1.len(),
        cards1[cards0.len() as int].card_type == CardInstanceType::UnitInstance(
            units0.len() as usize,
        ),
        cards1[cards0.len() as int].position.player_id == owner,
        cards1[cards0.len() as int].position.position_type == zt,
        cards1[cards0.len() as int].position.z as int == zone_count_upto(
            cards0,
            owner,
            zt,
            cards0.len() as int,
        ),
        arenas_wf(units0, abilities0, cards0, nplayers),
    ensures
        arenas_wf(units1, abilities1, cards1, nplayers),
{
    reveal(arenas_wf);
    lemma_refs_after_spawn(
        units0,
        abilities0,
        cards0,
        units1,
        abilities1,
        cards1,
        nplayers,
        owner,
        zt,
    );
    lemma_serial_after_spawn(
        units0,
        abilities0,
        cards0,
        units1,
        abilities1,
        cards1,
        nplayers,
        owner,
        zt,
    );
}

/// Creates the battle instances of one loaded card: its unit, that unit's
/// abilities, and the card itself, appended to the given zone's stacking
/// order.  Returns the new card instance's index.
#[verifier::rlimit(100)]
fn spawn_card_instance(
    game: &GameStore,
    units: &mut Vec<UnitInstance>,
    abilities: &mut Vec<AbilityInstance>,
    cards: &mut Vec<CardInstance>,
    store_card: usize,
    owner: PlayerId,
    nplayers: usize,
    zt: PositionType,
    x: i32,
    y: i32,
    face_up: bool,
) -> (idx: usize)
    requires
        game.wf(),
        store_card < game.cards@.len(),
        owner < nplayers,
        old(cards)@.len() < 0x3fff_ffff,
        arenas_wf(old(units)@, old(abilities)@, old(cards)@, nplayers as int),
    ensures
        arenas_wf(final(units)@, final(abilities)@, final(cards)@, nplayers as int),
        final(cards)@.len() == old(cards)@.len() + 1,
        final(units)@.len() == old(units)@.len() + 1,
        idx == old(cards)@.len(),
        final(cards)@.subrange(0, old(cards)@.len() as int) == old(cards)@,
        final(units)@.subrange(0, old(units)@.len() as int) == old(units)@,
        final(abilities)@.subrange(0, old(abilities)@.len() as int) == old(abilities)@,
        final(cards)@[idx as int].position.player_id == owner,
        final(cards)@[idx as int].position.position_type == zt,
        final(cards)@[idx as int].position == (Position {
            x,
            y,
            z: zone_count_upto(old(cards)@, owner, zt, old(cards)@.len() as int) as i32,
            face_up,
            player_id: owner,
            position_type: zt,
        }),
        final(cards)@[idx as int].card_type == CardInstanceType::UnitInstance(old(units)@.len() as usize),
        final(units)@[old(units)@.len() as int].owner == owner,
        !final(units)@[old(units)@.len() as int].is_dead,
        final(units)@[old(units)@.len() as int].ap == 0,
        final(cards)@[idx as int].card_data_id == game.cards@[store_card as int].card_data_id,
        (match game.cards@[store_card as int].card_type {
            CardType::Unit(su) => {
                let new_unit = final(units)@[old(units)@.len() as int];
                &&& new_unit.hp == game.units@[su as int].hp
                &&& new_unit.atk == game.units@[su as int].atk
                &&& new_unit.def == game.units@[su as int].def
                &&& new_unit.unit_data_id == game.units@[su as int].unit_data_id
                &&& new_unit.name@ == game.units@[su as int].name@
            },
        }),
        forall|p2: PlayerId, zt2: PositionType| #[trigger] zone_count_upto(
            final(cards)@,
            p2,
            zt2,
            final(cards)@.len() as int,
        ) == zone_count_upto(old(cards)@, p2, zt2, old(cards)@.len() as int) + (if p2 == owner
            && zt2 == zt {
            1int
        } else {
            0int
        }),
{
    let unit_idx = units.len();
    let card_idx = cards.len();
    let store_unit = match game.cards[store_card].card_type {
        CardType::Unit(u) => u,
    };
    let mut ability_ids: Vec<AbilityId> = Vec::new();
    let n_ab = game.units[store_unit].abilities.len();
    let mut k: usize = 0;
    while k < n_ab
        invariant
            k <= n_ab,
            game.wf(),
            store_unit < game.units@.len(),
            n_ab == game.units@[store_unit as int].abilities@.len(),
            unit_idx == units@.len(),
            units@ == old(units)@,
            cards@ == old(cards)@,
            abilities@.len() == old(abilities)@.len() + k,
            abilities@.subrange(0, old(abilities)@.len() as int) == old(abilities)@,
            forall|i: int|
                0 <= i < ability_ids@.len() ==> (#[trigger] ability_ids@[i]) < abilities@.len(),
            forall|a: int|
                old(abilities)@.len() <= a < abilities@.len() ==> (
                #[trigger] abilities@[a]).owner_unit == unit_idx && abilities@[a].ap >= 0,
        decreases n_ab - k,
    {
        let sa = game.units[store_unit].abilities[k];
        let aidx = abilities.len();
        let inst = instantiate_ability(&game.abilities[sa], sa, unit_idx);
        abilities.push(inst);
        ability_ids.push(aidx);
        proof {
            assert(abilities@.subrange(0, old(abilities)@.len() as int) =~= old(abilities)@);
        }
        k = k + 1;
    }
    let su = &game.units[store_unit];
    let z = count_zone_cards(cards, owner, zt);
    units.push(
        UnitInstance {
            name: su.name.clone(),
            description: su.description.clone(),
            hp: su.hp,
            atk: su.atk,
            def: su.def,
            abilities: ability_ids,
            unit_data_id: su.unit_data_id,
            unit_id: store_unit,
            ap: 0,
            states: Status::clear(),
            owner,
            card: card_idx,
            is_dead: false,
        },
    );
    let sc = &game.cards[store_card];
    cards.push(
        CardInstance {
            name: sc.name.clone(),
            cost: sc.cost,
            card_type: CardInstanceType::UnitInstance(unit_idx),
            card_data_id: sc.card_data_id,
            card_id: store_card,
            position: Position { x, y, z: z as i32, face_up, player_id: owner, position_type: zt },
        },
    );
    proof {
        assert(cards@.subrange(0, old(cards)@.len() as int) =~= old(cards)@);
        assert(units@.subrange(0, old(units)@.len() as int) =~= old(units)@);
        assert(abilities@.subrange(0, old(abilities)@.len() as int) =~= old(abilities)@);
        assert forall|k: int| 0 <= k < old(abilities)@.len() implies abilities@[k] == old(
            abilities,
        )@[k] by {
            assert(abilities@[k] == abilities@.subrange(0, old(abilities)@.len() as int)[k]);
        }
        lemma_arenas_after_spawn(
            old(units)@,
            old(abilities)@,
            old(cards)@,
            units@,
            abilities@,
            cards@,
            nplayers as int,
            owner,
            zt,
        );
        assert forall|p2: PlayerId, zt2: PositionType| #[trigger] zone_count_upto(
            cards@,
            p2,
            zt2,
            cards@.len() as int,
        ) == zone_count_upto(old(cards)@, p2, zt2, old(cards)@.len() as int) + (if p2 == owner
            && zt2 == zt {
            1int
        } else {
            0int
        }) by {
            lemma_zone_count_prefix(old(cards)@, cards@, p2, zt2, old(cards)@.len() as int);
        }
    }
    card_idx
}

/// Counts the cards of a partially built arena standing in the zone `zt`
/// of player `p`.
fn count_zone_cards(cards: &Vec<CardInstance>, p: PlayerId, zt: PositionType) -> (r: usize)
    requires
        cards@.len() < 0x4000_0000,
    ensures
        r as int == zone_count_upto(cards@, p, zt, cards@.len() as int),
        r <= cards@.len(),
{
    let mut r: usize = 0;
    let n = cards.len();
    let mut i: usize = 0;
    while i < n
        invariant
            i <= n,
            n == cards@.len(),
            n < 0x4000_0000,
            r as int == zone_count_upto(cards@, p, zt, i as int),
            r <= i,
        decreases n - i,
    {
        let pos = &cards[i].position;
        if pos.player_id == p && pos.position_type == zt {
            r = r + 1;
        }
        i = i + 1;
    }
    r
}

/// The number of card instances the first `n` players of the store bring
/// into a battle: their decks plus one character card each.
pub open spec fn roster_size_upto(game: GameStore, n: int) -> int
    decreases n,
{
    if n <= 0 {
        0
    } else {
        roster_size_upto(game, n - 1) + game.players@[n - 1].decks@.len() + 1
    }
}

/// Roster sizes grow with the player prefix.
proof fn lemma_roster_size_mono(game: GameStore, m: int, n: int)
    requires
        0 <= m <= n,
    ensures
        roster_size_upto(game, m) <= roster_size_upto(game, n),
    decreases n,
{
    if m < n {
        lemma_roster_size_mono(game, m, n - 1);
    }
}

/// One battle card instance copied from the store card `sc`: it stands at
/// exactly the given position on player `q`'s side, carries the store
/// card's catalog identifier, and wraps a fresh unit instance owned by `q`
/// — alive, without action points, its statistics copied from the store
/// card's unit.
#[verifier::opaque]
pub open spec fn instance_ok(
    game: GameStore,
    units: Seq<UnitInstance>,
    cards: Seq<CardInstance>,
    q: PlayerId,
    idx: int,
    sc: int,
    zt: PositionType,
    x: i32,
    y: i32,
    z: i32,
    face_up: bool,
) -> bool {
    &&& 0 <= idx < cards.len()
    &&& 0 <= sc < game.cards@.len()
    &&& cards[idx].position == (Position { x, y, z, face_up, player_id: q, position_type: zt })
    &&& cards[idx].card_data_id == game.cards@[sc].card_data_id
    &&& match cards[idx].card_type {
        CardInstanceType::UnitInstance(u) => {
            &&& u < units.len()
            &&& units[u as int].owner == q
            &&& units[u as int].ap == 0
            &&& !units[u as int].is_dead
            &&& match game.cards@[sc].card_type {
                CardType::Unit(su) => {
                    &&& units[u as int].hp == game.units@[su as int].hp
                    &&& units[u as int].atk == game.units@[su as int].atk
                    &&& units[u as int].def == game.units@[su as int].def
                    &&& units[u as int].unit_data_id == game.units@[su as int].unit_data_id
                },
            }
        },
    }
}

/// Packages the facts one spawn leaves behind into [`instance_ok`].
proof fn lemma_establish_instance_ok(
    game: GameStore,
    units: Seq<UnitInstance>,
    cards: Seq<CardInstance>,
    q: PlayerId,
    idx: int,
    sc: int,
    zt: PositionType,
    x: i32,
    y: i32,
    z: i32,
    face_up: bool,
    u: int,
)
    requires
        0 <= idx < cards.len(),
        0 <= sc < game.cards@.len(),
        0 <= u < units.len(),
        u <= usize::MAX,
        cards[idx].position == (Position { x, y, z, face_up, player_id: q, position_type: zt }),
        cards[idx].card_data_id == game.cards@[sc].card_data_id,
        cards[idx].card_type == CardInstanceType::UnitInstance(u as usize),
        units[u].owner == q,
        units[u].ap == 0,
        !units[u].is_dead,
        (match game.cards@[sc].card_type {
            CardType::Unit(su) => {
                &&& units[u].hp == game.units@[su as int].hp
                &&& units[u].atk == game.units@[su as int].atk
                &&& units[u].def == game.units@[su as int].def
                &&& units[u].unit_data_id == game.units@[su as int].unit_data_id
            },
        }),
    ensures
        instance_ok(game, units, cards, q, idx, sc, zt, x, y, z, face_up),
{
    reveal(instance_ok);
}

/// An instance's description survives later appends.
proof fn lemma_instance_ok_stable(
    game: GameStore,
    units0: Seq<UnitInstance>,
    cards0: Seq<CardInstance>,
    units1: Seq<UnitInstance>,
    cards1: Seq<CardInstance>,
    q: PlayerId,
    idx: int,
    sc: int,
    zt: PositionType,
    x: i32,
    y: i32,
    z: i32,
    face_up: bool,
)
    requires
        instance_ok(game, units0, cards0, q, idx, sc, zt, x, y, z, face_up),
        units1.len() >= units0.len(),
        cards1.len() >= cards0.len(),
        forall|k: int| 0 <= k < units0.len() ==> units1[k] == units0[k],
        forall|k: int| 0 <= k < cards0.len() ==> cards1[k] == cards0[k],
    ensures
        instance_ok(game, units1, cards1, q, idx, sc, zt, x, y, z, face_up),
{
    reveal(instance_ok);
    assert(cards1[idx] == cards0[idx]);
    match cards0[idx].card_type {
        CardInstanceType::UnitInstance(u) => {
            assert(units1[u as int] == units0[u as int]);
        },
    }
}

/// The whole layout [`start_battle`] gives player `q`: the player instance
/// holds the resource counter 5 and references the character card
/// instance; that instance stands on the board at (1, 1) face-up; and the
/// `i`-th deck entry's instance stands in the deck zone face-down with
/// stacking order `i` — every instance carrying the statistics of its
/// store card's unit.  The instances occupy the card arena contiguously
/// from the player's roster offset, deck first, character last.
#[verifier::opaque]
pub open spec fn player_setup_ok(
    game: GameStore,
    players: Seq<PlayerInstance>,
    units: Seq<UnitInstance>,
    cards: Seq<CardInstance>,
    q: int,
) -> bool {
    let base = roster_size_upto(game, q);
    let d = game.players@[q].decks@.len() as int;
    &&& players[q].mp == 5
    &&& players[q].player_card_instance_id as int == base + d
    &&& forall|i: int|
        0 <= i < d ==> #[trigger] instance_ok(
            game,
            units,
            cards,
            q as PlayerId,
            base + i,
            game.players@[q].decks@[i] as int,
            PositionType::Deck,
            0,
            0,
            i as i32,
            false,
        )
    &&& instance_ok(
        game,
        units,
        cards,
        q as PlayerId,
        base + d,
        game.players@[q].character_card as int,
        PositionType::Board,
        1,
        1,
        0,
        true,
    )
}

/// A player's finished layout survives later appends.
proof fn lemma_setup_ok_stable(
    game: GameStore,
    players0: Seq<PlayerInstance>,
    players1: Seq<PlayerInstance>,
    units0: Seq<UnitInstance>,
    cards0: Seq<CardInstance>,
    units1: Seq<UnitInstance>,
    cards1: Seq<CardInstance>,
    q: int,
)
    requires
        player_setup_ok(game, players0, units0, cards0, q),
        players1[q] == players0[q],
        units1.len() >= units0.len(),
        cards1.len() >= cards0.len(),
        forall|k: int| 0 <= k < units0.len() ==> units1[k] == units0[k],
        forall|k: int| 0 <= k < cards0.len() ==> cards1[k] == cards0[k],
    ensures
        player_setup_ok(game, players1, units1, cards1, q),
{
    reveal(player_setup_ok);
    let base = roster_size_upto(game, q);
    let d = game.players@[q].decks@.len() as int;
    assert forall|i: int| 0 <= i < d implies #[trigger] instance_ok(
        game,
        units1,
        cards1,
        q as PlayerId,
        base + i,
        game.players@[q].decks@[i] as int,
        PositionType::Deck,
        0,
        0,
        i as i32,
        false,
    ) by {
        lemma_instance_ok_stable(
            game,
            units0,
            cards0,
            units1,
            cards1,
            q as PlayerId,
            base + i,
            game.players@[q].decks@[i] as int,
            PositionType::Deck,
            0,
            0,
            i as i32,
            false,
        );
    }
    lemma_instance_ok_stable(
        game,
        units0,
        cards0,
        units1,
        cards1,
        q as PlayerId,
        base + d,
        game.players@[q].character_card as int,
        PositionType::Board,
        1,
        1,
        0,
        true,
    );
}

/// A shorter prefix equality follows from two chained ones.
proof fn lemma_prefix_chain<T>(a: Seq<T>, b: Seq<T>, c: Seq<T>)
    requires
        a.len() <= b.len() <= c.len(),
        b.subrange(0, a.len() as int) == a,
        c.subrange(0, b.len() as int) == b,
    ensures
        c.subrange(0, a.len() as int) == a,
{
    assert forall|k: int| 0 <= k < b.len() implies c[k] == b[k] by {
        assert(c[k] == c.subrange(0, b.len() as int)[k]);
    }
    assert forall|k: int| 0 <= k < a.len() implies b[k] == a[k] by {
        assert(b[k] == b.subrange(0, a.len() as int)[k]);
    }
    assert(c.subrange(0, a.len() as int) =~= a);
}

/// Sets one player up: the deck bottom-up in the deck zone, the character
/// card on the board, and the player instance referencing it.
#[verifier::rlimit(100)]
fn setup_player(
    game: &GameStore,
    players: &mut Vec<PlayerInstance>,
    units: &mut Vec<UnitInstance>,
    abilities: &mut Vec<AbilityInstance>,
    cards: &mut Vec<CardInstance>,
    p: usize,
    nplayers: usize,
)
    requires
        game.wf(),
        p < nplayers,
        nplayers == game.players@.len(),
        roster_size_upto(*game, game.players@.len() as int) < 0x3fff_ffff,
        old(players)@.len() == p,
        old(cards)@.len() as int == roster_size_upto(*game, p as int),
        arenas_wf(old(units)@, old(abilities)@, old(cards)@, nplayers as int),
        forall|q: int|
            0 <= q < p ==> (#[trigger] old(players)@[q]).player_card_instance_id
                < old(cards)@.len(),
        forall|r: PlayerId, zt2: PositionType|
            p <= r ==> #[trigger] zone_count_upto(old(cards)@, r, zt2, old(cards)@.len() as int)
                == 0,
    ensures
        final(players)@.len() == p + 1,
        final(players)@.subrange(0, p as int) == old(players)@,
        final(units)@.subrange(0, old(units)@.len() as int) == old(units)@,
        final(cards)@.subrange(0, old(cards)@.len() as int) == old(cards)@,
        final(units)@.len() >= old(units)@.len(),
        forall|q: int|
            0 <= q < p + 1 ==> (#[trigger] final(players)@[q]).player_card_instance_id
                < final(cards)@.len(),
        final(players)@[p as int].controller == (if p == 0 {
            PlayerController::Player
        } else {
            PlayerController::Ai
        }),
        final(cards)@.len() as int == roster_size_upto(*game, p as int + 1),
        arenas_wf(final(units)@, final(abilities)@, final(cards)@, nplayers as int),
        player_setup_ok(*game, final(players)@, final(units)@, final(cards)@, p as int),
        forall|r: PlayerId, zt2: PositionType|
            p + 1 <= r ==> #[trigger] zone_count_upto(
                final(cards)@,
                r,
                zt2,
                final(cards)@.len() as int,
            ) == 0,
{

        proof {
            lemma_roster_size_mono(*game, p as int + 1, game.players@.len() as int);
            lemma_roster_size_mono(*game, 0, p as int);
        }
        let decks_n = game.players[p].decks.len();
        let ghost base = roster_size_upto(*game, p as int);
        let mut i: usize = 0;
        while i < decks_n
            invariant
                i <= decks_n,
                p < nplayers,
                nplayers == game.players@.len(),
                game.wf(),
                decks_n == game.players@[p as int].decks@.len(),
                base == roster_size_upto(*game, p as int),
                0 <= base,
                cards@.len() as int == base + i,
                cards@.len() >= old(cards)@.len(),
                units@.len() >= old(units)@.len(),
                roster_size_upto(*game, p as int) + decks_n + 1 <= roster_size_upto(
                    *game,
                    p as int + 1,
                ),
                roster_size_upto(*game, game.players@.len() as int) < 0x3fff_ffff,
                roster_size_upto(*game, p as int + 1) <= roster_size_upto(
                    *game,
                    game.players@.len() as int,
                ),
                arenas_wf(units@, abilities@, cards@, nplayers as int),
                players@.len() == p,
                units@.subrange(0, old(units)@.len() as int) == old(units)@,
                cards@.subrange(0, old(cards)@.len() as int) == old(cards)@,
                zone_count_upto(cards@, p, PositionType::Deck, cards@.len() as int) == i as int,
                zone_count_upto(cards@, p, PositionType::Board, cards@.len() as int) == 0,
                zone_count_upto(cards@, p, PositionType::Hand, cards@.len() as int) == 0,
                zone_count_upto(cards@, p, PositionType::Grave, cards@.len() as int) == 0,
                forall|r: PlayerId, zt2: PositionType|
                    p < r ==> #[trigger] zone_count_upto(cards@, r, zt2, cards@.len() as int)
                        == 0,
                forall|i2: int|
                    0 <= i2 < i ==> #[trigger] instance_ok(
                        *game,
                        units@,
                        cards@,
                        p,
                        base + i2,
                        game.players@[p as int].decks@[i2] as int,
                        PositionType::Deck,
                        0,
                        0,
                        i2 as i32,
                        false,
                    ),
            decreases decks_n - i,
        {
            let sc = game.players[p].decks[i];
            let ghost mid_units = units@;
            let ghost mid_cards = cards@;
            let ghost new_unit = units@.len();
            let _ = spawn_card_instance(
                game,
                units,
                abilities,
                cards,
                sc,
                p,
                nplayers,
                PositionType::Deck,
                0,
                0,
                false,
            );
            let units_len = units.len();
            proof {
                assert(units_len == units@.len());
                assert forall|k: int| 0 <= k < mid_units.len() implies units@[k] == mid_units[k] by {
                    assert(units@[k] == units@.subrange(0, mid_units.len() as int)[k]);
                }
                assert forall|k: int| 0 <= k < mid_cards.len() implies cards@[k] == mid_cards[k] by {
                    assert(cards@[k] == cards@.subrange(0, mid_cards.len() as int)[k]);
                }
                lemma_prefix_chain(old(units)@, mid_units, units@);
                lemma_prefix_chain(old(cards)@, mid_cards, cards@);
                assert(units@.len() <= usize::MAX);
                lemma_establish_instance_ok(
                    *game,
                    units@,
                    cards@,
                    p,
                    base + i as int,
                    sc as int,
                    PositionType::Deck,
                    0,
                    0,
                    i as i32,
                    false,
                    new_unit as int,
                );
                assert forall|i2: int| 0 <= i2 < i + 1 implies #[trigger] instance_ok(
                    *game,
                    units@,
                    cards@,
                    p,
                    base + i2,
                    game.players@[p as int].decks@[i2] as int,
                    PositionType::Deck,
                    0,
                    0,
                    i2 as i32,
                    false,
                ) by {
                    if i2 < i {
                        lemma_instance_ok_stable(
                            *game,
                            mid_units,
                            mid_cards,
                            units@,
                            cards@,
                            p,
                            base + i2,
                            game.players@[p as int].decks@[i2] as int,
                            PositionType::Deck,
                            0,
                            0,
                            i2 as i32,
                            false,
                        );
                    }
                }
            }
            i = i + 1;
        }
        let cc = game.players[p].character_card;
        let ghost mid_units = units@;
        let ghost mid_cards = cards@;
        let ghost char_unit = units@.len();
        let char_idx = spawn_card_instance(
            game,
            units,
            abilities,
            cards,
            cc,
            p,
            nplayers,
            PositionType::Board,
            1,
            1,
            true,
        );
        let units_len = units.len();
        let controller = if p == 0 {
            PlayerController::Player
        } else {
            PlayerController::Ai
        };
        players.push(
            PlayerInstance {
                name: game.players[p].name.clone(),
                mp: 5,
                player_card_instance_id: char_idx,
                controller,
            },
        );
        proof {
            assert(units_len == units@.len());
            assert forall|q: int|
                0 <= q < p + 1 implies (#[trigger] players@[q]).player_card_instance_id
                < cards@.len() by {
                if q < p {
                    assert(players@[q] == players@.subrange(0, p as int)[q]);
                }
            }
            assert(players@.subrange(0, p as int) =~= old(players)@);
            assert forall|k: int| 0 <= k < mid_units.len() implies units@[k] == mid_units[k] by {
                assert(units@[k] == units@.subrange(0, mid_units.len() as int)[k]);
            }
            assert forall|k: int| 0 <= k < mid_cards.len() implies cards@[k] == mid_cards[k] by {
                assert(cards@[k] == cards@.subrange(0, mid_cards.len() as int)[k]);
            }
            lemma_prefix_chain(old(units)@, mid_units, units@);
            lemma_prefix_chain(old(cards)@, mid_cards, cards@);
            assert(units@.len() <= usize::MAX);
            lemma_establish_instance_ok(
                *game,
                units@,
                cards@,
                p,
                base + decks_n as int,
                cc as int,
                PositionType::Board,
                1,
                1,
                0,
                true,
                char_unit as int,
            );
            assert(player_setup_ok(*game, players@, units@, cards@, p as int)) by {
                reveal(player_setup_ok);
                assert(players@[p as int].mp == 5);
                assert(players@[p as int].player_card_instance_id as int == base
                    + decks_n as int);
                assert forall|i2: int| 0 <= i2 < decks_n implies #[trigger] instance_ok(
                    *game,
                    units@,
                    cards@,
                    p,
                    base + i2,
                    game.players@[p as int].decks@[i2] as int,
                    PositionType::Deck,
                    0,
                    0,
                    i2 as i32,
                    false,
                ) by {
                    lemma_instance_ok_stable(
                        *game,
                        mid_units,
                        mid_cards,
                        units@,
                        cards@,
                        p,
                        base + i2,
                        game.players@[p as int].decks@[i2] as int,
                        PositionType::Deck,
                        0,
                        0,
                        i2 as i32,
                        false,
                    );
                }
            }
        }
}

/// A battle assembled from well-formed arenas with an empty stack is well
/// formed.
#[verifier::rlimit(100)]
#[verifier::spinoff_prover]
proof fn lemma_battle_wf_from_arenas(b: Battle)
    requires
        b.players.len() >= 1,
        b.cards.len() < 0x4000_0000,
        b.current_player_index < b.players.len(),
        b.stacks@.len() == 0,
        arenas_wf(b.units@, b.abilities@, b.cards@, b.players@.len() as int),
        forall|q: int|
            0 <= q < b.players@.len() ==> (#[trigger] b.players@[q]).player_card_instance_id
                < b.cards@.len(),
    ensures
        b.wf(),
{
    reveal(arenas_wf);
    reveal(serial_dense);
    assert forall|q: int| 0 <= q < b.players@.len() implies #[trigger] b.player_wf(q) by {}
    assert forall|u: int| 0 <= u < b.units@.len() implies #[trigger] b.unit_wf(u) by {}
    assert forall|c: int| 0 <= c < b.cards@.len() implies #[trigger] b.card_wf(c) by {}
    assert forall|a: int| 0 <= a < b.abilities@.len() implies #[trigger] b.ability_wf(a) by {}
    lemma_serial_dense(b);
}

/// Sets a battle up from the store: one player instance per store player
/// (the first is human, the rest are AI-driven), each deck laid out
/// bottom-up in the deck zone, and each character card on the board.  The
/// battle starts at the battle-start stage with an empty frame stack and
/// the first player as the current player.
#[verifier::rlimit(100)]
pub fn start_battle(game: &GameStore) -> (b: Battle)
    requires
        game.wf(),
        game.players@.len() >= 1,
        roster_size_upto(*game, game.players@.len() as int) < 0x3fff_ffff,
    ensures
        b.wf(),
        b.stage == BattleFlow::BattleStart,
        b.stacks@.len() == 0,
        b.current_player_index == 0,
        b.players@.len() == game.players@.len(),
        b.cards@.len() as int == roster_size_upto(*game, game.players@.len() as int),
        forall|q: int|
            0 <= q < b.players@.len() ==> (#[trigger] b.players@[q]).controller == (if q == 0 {
                PlayerController::Player
            } else {
                PlayerController::Ai
            }),
        forall|q: int|
            0 <= q < b.players@.len() ==> #[trigger] player_setup_ok(
                *game,
                b.players@,
                b.units@,
                b.cards@,
                q,
            ),
{
    let nplayers = game.players.len();
    let mut players: Vec<PlayerInstance> = Vec::new();
    let mut units: Vec<UnitInstance> = Vec::new();
    let mut abilities: Vec<AbilityInstance> = Vec::new();
    let mut cards: Vec<CardInstance> = Vec::new();
    proof {
        reveal(serial_dense);
        reveal(arenas_wf);
        assert(arenas_wf(units@, abilities@, cards@, nplayers as int));
    }
    let mut p: usize = 0;
    while p < nplayers
        invariant
            p <= nplayers,
            nplayers == game.players@.len(),
            game.wf(),
            roster_size_upto(*game, game.players@.len() as int) < 0x3fff_ffff,
            players@.len() == p,
            cards@.len() as int == roster_size_upto(*game, p as int),
            arenas_wf(units@, abilities@, cards@, nplayers as int),
            forall|q: int|
                0 <= q < p ==> (#[trigger] players@[q]).player_card_instance_id < cards@.len(),
            forall|q: int|
                0 <= q < p ==> (#[trigger] players@[q]).controller == (if q == 0 {
                    PlayerController::Player
                } else {
                    PlayerController::Ai
                }),
            forall|q: int|
                0 <= q < p ==> #[trigger] player_setup_ok(*game, players@, units@, cards@, q),
            forall|r: PlayerId, zt2: PositionType|
                p <= r ==> #[trigger] zone_count_upto(cards@, r, zt2, cards@.len() as int) == 0,
        decreases nplayers - p,
    {
        let ghost prev_players = players@;
        let ghost prev_units = units@;
        let ghost prev_cards = cards@;
        setup_player(game, &mut players, &mut units, &mut abilities, &mut cards, p, nplayers);
        proof {
            assert forall|k: int| 0 <= k < prev_units.len() implies units@[k] == prev_units[k] by {
                assert(units@[k] == units@.subrange(0, prev_units.len() as int)[k]);
            }
            assert forall|k: int| 0 <= k < prev_cards.len() implies cards@[k] == prev_cards[k] by {
                assert(cards@[k] == cards@.subrange(0, prev_cards.len() as int)[k]);
            }
            assert forall|q: int|
                0 <= q < p + 1 implies (#[trigger] players@[q]).controller == (if q == 0 {
                PlayerController::Player
            } else {
                PlayerController::Ai
            }) by {
                if q < p {
                    assert(players@[q] == players@.subrange(0, p as int)[q]);
                    assert(players@.subrange(0, p as int)[q] == prev_players[q]);
                }
            }
            assert forall|q: int| 0 <= q < p + 1 implies #[trigger] player_setup_ok(
                *game,
                players@,
                units@,
                cards@,
                q,
            ) by {
                if q < p {
                    assert(players@[q] == players@.subrange(0, p as int)[q]);
                    assert(players@.subrange(0, p as int)[q] == prev_players[q]);
                    lemma_setup_ok_stable(
                        *game,
                        prev_players,
                        players@,
                        prev_units,
                        prev_cards,
                        units@,
                        cards@,
                        q,
                    );
                }
            }
        }
        p = p + 1;
    }
    let b = Battle {
        stage: BattleFlow::BattleStart,
        stacks: Vec::new(),
        players,
        units,
        abilities,
        cards,
        current_player_index: 0,
    };
    proof {
        lemma_battle_wf_from_arenas(b);
    }
    b
}

/// Loads the fixed two-player roster: a human player with two soldiers in
/// the deck, two spare cards and a character, and an AI enemy with two
/// demons in the deck and a character.
pub fn load_game() -> (store: GameStore)
    ensures
        store.wf(),
        store.players@.len() == 2,
        store.players@[0].name@ == "You"@,
        store.players@[0].money == 100,
        store.players@[0].decks@.len() == 2,
        store.players@[0].cards@.len() == 2,
        store.cards@[store.players@[0].decks@[0] as int].card_data_id == CardDataId::Solider,
        store.cards@[store.players@[0].decks@[1] as int].card_data_id == CardDataId::Solider,
        store.cards@[store.players@[0].cards@[0] as int].card_data_id == CardDataId::Spare,
        store.cards@[store.players@[0].cards@[1] as int].card_data_id == CardDataId::Spare,
        store.cards@[store.players@[0].character_card as int].card_data_id == CardDataId::You,
        store.players@[1].name@ == "Enemy"@,
        store.players@[1].money == 100,
        store.players@[1].decks@.len() == 2,
        store.players@[1].cards@.len() == 0,
        store.cards@[store.players@[1].decks@[0] as int].card_data_id == CardDataId::Demon,
        store.cards@[store.players@[1].decks@[1] as int].card_data_id == CardDataId::Demon,
        store.cards@[store.players@[1].character_card as int].card_data_id == CardDataId::Enemy,
{
    let mut store = GameStore {
        cards: Vec::new(),
        units: Vec::new(),
        abilities: Vec::new(),
        players: Vec::new(),
    };
    let mut decks: Vec<usize> = Vec::new();
    decks.push(spawn_card(&mut store, CardDataId::Solider));
    decks.push(spawn_card(&mut store, CardDataId::Solider));
    let mut spare_cards: Vec<usize> = Vec::new();
    spare_cards.push(spawn_card(&mut store, CardDataId::Spare));
    spare_cards.push(spawn_card(&mut store, CardDataId::Spare));
    let character_card = spawn_card(&mut store, CardDataId::You);
    store.players.push(
        Player { name: "You".to_owned(), money: 100, decks, cards: spare_cards, character_card },
    );
    let mut enemy_decks: Vec<usize> = Vec::new();
    enemy_decks.push(spawn_card(&mut store, CardDataId::Demon));
    enemy_decks.push(spawn_card(&mut store, CardDataId::Demon));
    let enemy_character = spawn_card(&mut store, CardDataId::Enemy);
    store.players.push(
        Player {
            name: "Enemy".to_owned(),
            money: 100,
            decks: enemy_decks,
            cards: Vec::new(),
            character_card: enemy_character,
        },
    );
    store
}

} // verus!
