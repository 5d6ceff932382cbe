//! The frame-stack resolution engine, driven frame by frame.

use card_battle::ability::{
    AbilityDataId, AbilityEffect, AbilityInstance, AbilityType, EffectTarget, OnBattleEvent,
    TargetSelection, Trigger, TriggerCondition, UnitVar,
};
use card_battle::battle::{Battle, BattleFlow, BattleFrame};
use card_battle::card::{CardDataId, CardInstance, CardInstanceType};
use card_battle::events::{BattleEvent, PlayerDraw, UnitCombat, UnitDie, UnitHurt};
use card_battle::player::{PlayerController, PlayerInstance};
use card_battle::position::{Position, PositionType};
use card_battle::unit::{Status, UnitDataId, UnitInstance};

fn status() -> Status {
    Status { sleep: 0, stun: 0, charm: 0, fear: 0, curse: 0 }
}

fn unit(name: &str, hp: i32, atk: i32, def: i32, owner: usize, card: usize) -> UnitInstance {
    UnitInstance {
        name: name.to_string(),
        description: String::new(),
        hp,
        atk,
        def,
        abilities: Vec::new(),
        unit_data_id: UnitDataId::Solider,
        unit_id: 0,
        ap: 0,
        states: status(),
        owner,
        card,
        is_dead: false,
    }
}

fn board_card(name: &str, unit_idx: usize, owner: usize) -> CardInstance {
    CardInstance {
        name: name.to_string(),
        cost: 1,
        card_type: CardInstanceType::UnitInstance(unit_idx),
        card_data_id: CardDataId::Solider,
        card_id: 0,
        position: Position {
            x: 1,
            y: 1,
            z: 0,
            face_up: true,
            player_id: owner,
            position_type: PositionType::Board,
        },
    }
}

fn player(name: &str, card: usize, controller: PlayerController) -> PlayerInstance {
    PlayerInstance {
        name: name.to_string(),
        mp: 5,
        player_card_instance_id: card,
        controller,
    }
}

fn attack_ability(owner_unit: usize) -> AbilityInstance {
    AbilityInstance {
        priority: 0,
        name: "Attack".to_string(),
        description: "Basic Attack".to_string(),
        ability_type: AbilityType::Active(TargetSelection::Any),
        effects: vec![(EffectTarget::Target, AbilityEffect::Attack)],
        ap: 1,
        ability_data_id: AbilityDataId::Attack,
        ability_id: 0,
        owner_unit,
    }
}

/// Two players, one board unit each with the given statistics, one
/// basic-attack ability instance per unit.
fn duel(a: (i32, i32, i32), b: (i32, i32, i32)) -> Battle {
    Battle {
        stage: BattleFlow::PlayerAction,
        stacks: Vec::new(),
        players: vec![
            player("one", 0, PlayerController::Player),
            player("two", 1, PlayerController::Ai),
        ],
        units: vec![unit("a", a.0, a.1, a.2, 0, 0), unit("b", b.0, b.1, b.2, 1, 1)],
        abilities: vec![attack_ability(0), attack_ability(1)],
        cards: vec![board_card("a", 0, 0), board_card("b", 1, 1)],
        current_player_index: 0,
    }
}

fn drain(b: &mut Battle) -> Vec<BattleEvent> {
    let mut seen = Vec::new();
    let mut guard = 0;
    while !b.stacks.is_empty() {
        if let Some(e) = b.update() {
            seen.push(e);
        }
        guard += 1;
        assert!(guard < 10_000, "the stack did not drain");
    }
    seen
}

fn frame(event: BattleEvent) -> BattleFrame {
    BattleFrame { event, on_stacks: Vec::new(), started: false }
}

#[test]
fn combat_is_simultaneous() {
    // attacker atk 5 / def 1, defender atk 3 / def 2
    let mut b = duel((10, 5, 1), (10, 3, 2));
    b.push_frame(BattleEvent::UnitCombat(UnitCombat { source: 0, target: 1 }));
    let seen = drain(&mut b);
    // damage to the attacker resolves first, both from pre-combat statistics
    assert_eq!(
        seen,
        vec![
            BattleEvent::UnitCombat(UnitCombat { source: 0, target: 1 }),
            BattleEvent::UnitHurt(UnitHurt { source: 1, target: 0, value: 2 }),
            BattleEvent::UnitHurt(UnitHurt { source: 0, target: 1, value: 3 }),
        ]
    );
    assert_eq!(b.units[0].hp, 8);
    assert_eq!(b.units[1].hp, 7);
    assert!(!b.units[0].is_dead && !b.units[1].is_dead);
}

#[test]
fn lethal_hurt_cascades_into_death() {
    let mut b = duel((2, 1, 0), (10, 1, 0));
    b.push_frame(BattleEvent::UnitHurt(UnitHurt { source: 1, target: 0, value: 3 }));
    // resolve the hurt: hp goes to -1 and a die frame lands on top
    let mut seen = Vec::new();
    while seen.is_empty() {
        if let Some(e) = b.update() {
            seen.push(e);
        }
    }
    assert_eq!(seen[0], BattleEvent::UnitHurt(UnitHurt { source: 1, target: 0, value: 3 }));
    assert_eq!(b.units[0].hp, -1);
    assert!(!b.units[0].is_dead);
    assert_eq!(b.stacks.len(), 1);
    assert_eq!(
        b.stacks[0].event,
        BattleEvent::UnitDie(UnitDie { dead: 0, killer: 1 })
    );
    // the die frame resolves before control returns to anything beneath
    let rest = drain(&mut b);
    assert_eq!(rest, vec![BattleEvent::UnitDie(UnitDie { dead: 0, killer: 1 })]);
    assert!(b.units[0].is_dead);
    // the dead unit's card moved from the board to its owner's grave
    assert_eq!(b.cards[0].position.position_type, PositionType::Grave);
    assert_eq!(b.cards[0].position.z, 0);
    // the dying unit was player one's character: the battle ends
    assert_eq!(b.stage, BattleFlow::BattleEnd);
}

#[test]
fn death_is_idempotent() {
    let mut b = duel((10, 1, 0), (10, 1, 0));
    b.units[0].is_dead = true;
    b.cards[0].position.position_type = PositionType::Grave;
    let hp = b.units[0].hp;
    b.push_frame(BattleEvent::UnitHurt(UnitHurt { source: 1, target: 0, value: 5 }));
    let seen = drain(&mut b);
    // the hurt is emitted but a dead unit takes no damage and dies no second death
    assert_eq!(seen.len(), 1);
    assert_eq!(b.units[0].hp, hp);
    assert_eq!(b.stage, BattleFlow::PlayerAction);
}

fn kill_trigger_ability(owner_unit: usize) -> AbilityInstance {
    AbilityInstance {
        priority: 0,
        name: "Killer".to_string(),
        description: "Killer".to_string(),
        ability_type: AbilityType::Trigger(Trigger {
            event: OnBattleEvent::OnUnitDie,
            conditions: vec![TriggerCondition::UnitEq(UnitVar::ActionUnit, UnitVar::AbilityUnit)],
        }),
        effects: Vec::new(),
        ap: 0,
        ability_data_id: AbilityDataId::Killer,
        ability_id: 0,
        owner_unit,
    }
}

#[test]
fn kill_credit_trigger_fires_only_for_own_kills() {
    // unit 0 owns a trigger: fires when the killer is unit 0 itself
    let mut b = duel((10, 1, 0), (1, 1, 0));
    b.abilities.push(kill_trigger_ability(0));
    b.push_frame(BattleEvent::UnitDie(UnitDie { dead: 1, killer: 0 }));
    // first tick: the frame starts and collects the matching trigger
    assert!(b.update().is_none());
    assert_eq!(b.stacks[0].on_stacks, vec![2]);
    // second tick: the trigger fires and pushes the use-ability frame
    assert!(b.update().is_none());
    assert_eq!(b.stacks.len(), 2);
    match b.stacks[1].event {
        BattleEvent::UnitStartAbility(x) => {
            assert_eq!(x.ability, 2);
            assert_eq!(x.source, 0);
            assert_eq!(x.target, 1);
        }
        _ => panic!("expected the trigger's use-ability frame"),
    }
    drain(&mut b);

    // a death credited to someone else does not fire it
    let mut b2 = duel((10, 1, 0), (1, 1, 0));
    b2.abilities.push(kill_trigger_ability(0));
    b2.push_frame(BattleEvent::UnitDie(UnitDie { dead: 0, killer: 1 }));
    assert!(b2.update().is_none());
    assert_eq!(b2.stacks[0].on_stacks, vec![2]);
    // the condition fails: no frame is pushed and the die frame resolves
    let seen = drain(&mut b2);
    assert_eq!(seen, vec![BattleEvent::UnitDie(UnitDie { dead: 0, killer: 1 })]);
}

#[test]
fn dead_units_receive_no_triggers() {
    let mut b = duel((10, 1, 0), (1, 1, 0));
    b.abilities.push(kill_trigger_ability(0));
    b.units[0].is_dead = true;
    b.push_frame(BattleEvent::UnitDie(UnitDie { dead: 1, killer: 0 }));
    assert!(b.update().is_none());
    // the dead owner's trigger was not even collected
    assert!(b.stacks[0].on_stacks.is_empty());
}

fn deck_card(name: &str, unit_idx: usize, owner: usize, z: i32) -> CardInstance {
    CardInstance {
        name: name.to_string(),
        cost: 1,
        card_type: CardInstanceType::UnitInstance(unit_idx),
        card_data_id: CardDataId::Solider,
        card_id: 0,
        position: Position {
            x: 0,
            y: 0,
            z,
            face_up: false,
            player_id: owner,
            position_type: PositionType::Deck,
        },
    }
}

/// One player whose zones hold a three-card deck and a board character.
fn deck_battle() -> Battle {
    let mut b = Battle {
        stage: BattleFlow::PlayerAction,
        stacks: Vec::new(),
        players: vec![player("one", 0, PlayerController::Player)],
        units: Vec::new(),
        abilities: Vec::new(),
        cards: Vec::new(),
        current_player_index: 0,
    };
    for z in 0..3 {
        let u = b.units.len();
        b.units.push(unit("deck", 1, 1, 0, 0, b.cards.len()));
        b.cards.push(deck_card("deck", u, 0, z));
    }
    let u = b.units.len();
    b.units.push(unit("char", 10, 1, 0, 0, b.cards.len()));
    b.cards.push(board_card("char", u, 0));
    b.players[0].player_card_instance_id = 3;
    b
}

fn zone_zs(b: &Battle, p: usize, zt: PositionType) -> Vec<i32> {
    let mut zs: Vec<i32> = b
        .cards
        .iter()
        .filter(|c| c.position.player_id == p && c.position.position_type == zt)
        .map(|c| c.position.z)
        .collect();
    zs.sort();
    zs
}

#[test]
fn draw_moves_oldest_deck_cards_and_keeps_density() {
    let mut b = deck_battle();
    b.push_frame(BattleEvent::PlayerDraw(PlayerDraw { player: 0, c: 2 }));
    let seen = drain(&mut b);
    assert_eq!(seen, vec![BattleEvent::PlayerDraw(PlayerDraw { player: 0, c: 2 })]);
    // the two lowest deck cards moved to the hand in deck order
    assert_eq!(b.cards[0].position.position_type, PositionType::Hand);
    assert_eq!(b.cards[0].position.z, 0);
    assert_eq!(b.cards[1].position.position_type, PositionType::Hand);
    assert_eq!(b.cards[1].position.z, 1);
    // the remaining deck closed ranks
    assert_eq!(b.cards[2].position.position_type, PositionType::Deck);
    assert_eq!(b.cards[2].position.z, 0);
    // every zone's stacking order is exactly 0..count
    assert_eq!(zone_zs(&b, 0, PositionType::Hand), vec![0, 1]);
    assert_eq!(zone_zs(&b, 0, PositionType::Deck), vec![0]);
    assert_eq!(zone_zs(&b, 0, PositionType::Board), vec![0]);
}

#[test]
fn overdraw_takes_the_whole_deck() {
    let mut b = deck_battle();
    b.push_frame(BattleEvent::PlayerDraw(PlayerDraw { player: 0, c: 9 }));
    drain(&mut b);
    assert_eq!(zone_zs(&b, 0, PositionType::Hand), vec![0, 1, 2]);
    assert_eq!(zone_zs(&b, 0, PositionType::Deck), Vec::<i32>::new());
}

#[test]
fn summon_appends_to_board_and_renormalizes_hand() {
    let mut b = deck_battle();
    // move all three deck cards into the hand first
    b.push_frame(BattleEvent::PlayerDraw(PlayerDraw { player: 0, c: 3 }));
    drain(&mut b);
    // summon the middle hand card onto the board
    b.push_frame(BattleEvent::SummonUnit(card_battle::events::SummonUnit {
        card: 1,
        position: Position {
            x: 0,
            y: 1,
            z: 0,
            face_up: true,
            player_id: 0,
            position_type: PositionType::Board,
        },
    }));
    drain(&mut b);
    assert_eq!(b.cards[1].position.position_type, PositionType::Board);
    assert_eq!((b.cards[1].position.x, b.cards[1].position.y), (0, 1));
    // appended after the character on the board's stacking order
    assert_eq!(b.cards[1].position.z, 1);
    // the hand above the removed card shifted down
    assert_eq!(zone_zs(&b, 0, PositionType::Hand), vec![0, 1]);
    assert_eq!(b.cards[0].position.z, 0);
    assert_eq!(b.cards[2].position.z, 1);
}

#[test]
fn pre_turn_start_grants_board_action_points() {
    let mut b = deck_battle();
    b.push_frame(BattleEvent::PreTurnStart(card_battle::events::PreTurnStart { player: 0 }));
    drain(&mut b);
    // only the board unit gains an action point, deck units do not
    assert_eq!(b.units[3].ap, 1);
    assert_eq!(b.units[0].ap, 0);
    assert_eq!(b.units[1].ap, 0);
    assert_eq!(b.units[2].ap, 0);
}
