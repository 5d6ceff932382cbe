//! The turn-flow state machine, the gateway and whole-turn scenarios.

use card_battle::ability::{
    AbilityDataId, AbilityEffect, AbilityInstance, AbilityType, EffectTarget, TargetSelection,
};
use card_battle::action::{PlayerAction, PlayerActionEvent};
use card_battle::battle::{Battle, BattleFlow};
use card_battle::card::{CardDataId, CardInstance, CardInstanceType};
use card_battle::events::{BattleEvent, PlayerEndTurn, UnitHurt};
use card_battle::player::{PlayerController, PlayerInstance};
use card_battle::position::{Position, PositionType};
use card_battle::setup::{load_game, start_battle};
use card_battle::unit::{Status, UnitDataId, UnitInstance};

fn unit(hp: i32, atk: i32, def: i32, owner: usize, card: usize) -> UnitInstance {
    UnitInstance {
        name: "unit".to_string(),
        description: String::new(),
        hp,
        atk,
        def,
        abilities: Vec::new(),
        unit_data_id: UnitDataId::Solider,
        unit_id: 0,
        ap: 0,
        states: Status { sleep: 0, stun: 0, charm: 0, fear: 0, curse: 0 },
        owner,
        card,
        is_dead: false,
    }
}

fn board_card(unit_idx: usize, owner: usize) -> CardInstance {
    CardInstance {
        name: "card".to_string(),
        cost: 1,
        card_type: CardInstanceType::UnitInstance(unit_idx),
        card_data_id: CardDataId::Solider,
        card_id: 0,
        position: Position {
            x: 1,
            y: 1,
            z: 0,
            face_up: true,
            player_id: owner,
            position_type: PositionType::Board,
        },
    }
}

fn attack_ability(owner_unit: usize) -> AbilityInstance {
    AbilityInstance {
        priority: 0,
        name: "Attack".to_string(),
        description: "Basic Attack".to_string(),
        ability_type: AbilityType::Active(TargetSelection::Any),
        effects: vec![(EffectTarget::Target, AbilityEffect::Attack)],
        ap: 1,
        ability_data_id: AbilityDataId::Attack,
        ability_id: 0,
        owner_unit,
    }
}

/// Two symmetric hp10/atk2/def0 characters at the start of a battle.
fn symmetric_battle() -> Battle {
    Battle {
        stage: BattleFlow::BattleStart,
        stacks: Vec::new(),
        players: vec![
            PlayerInstance {
                name: "Player".to_string(),
                mp: 5,
                player_card_instance_id: 0,
                controller: PlayerController::Player,
            },
            PlayerInstance {
                name: "Enemy".to_string(),
                mp: 5,
                player_card_instance_id: 1,
                controller: PlayerController::Ai,
            },
        ],
        units: vec![unit(10, 2, 0, 0, 0), unit(10, 2, 0, 1, 1)],
        abilities: vec![attack_ability(0), attack_ability(1)],
        cards: vec![board_card(0, 0), board_card(1, 1)],
        current_player_index: 0,
    }
}

fn drain(b: &mut Battle) -> Vec<BattleEvent> {
    let mut seen = Vec::new();
    let mut guard = 0;
    while !b.stacks.is_empty() {
        if let Some(e) = b.update() {
            seen.push(e);
        }
        guard += 1;
        assert!(guard < 10_000, "the stack did not drain");
    }
    seen
}

#[test]
fn flow_never_advances_on_a_non_empty_stack() {
    let mut b = symmetric_battle();
    b.push_frame(BattleEvent::PlayerEndTurn(PlayerEndTurn { player: 0 }));
    let stage = b.stage;
    let depth = b.stacks.len();
    b.flow_system();
    assert_eq!(b.stage, stage);
    assert_eq!(b.stacks.len(), depth);
}

#[test]
fn whole_turn_scenario() {
    let mut b = symmetric_battle();
    // battle-start -> pre-turn-start
    b.flow_system();
    assert_eq!(b.stage, BattleFlow::PreTurnStart);
    // pre-turn-start: the acting player's board unit gains an action point
    b.flow_system();
    drain(&mut b);
    assert_eq!(b.stage, BattleFlow::TurnStart);
    assert_eq!(b.units[0].ap, 1);
    assert_eq!(b.units[1].ap, 0);
    // turn-start pushes the draw; the deck is empty, so nothing moves
    b.flow_system();
    drain(&mut b);
    assert_eq!(b.stage, BattleFlow::PlayerAction);
    // the player attacks: combat deals 2 both ways, nobody dies
    b.player_event_system(PlayerActionEvent {
        player_id: 0,
        action: PlayerAction::Attack { source: 0, target: 1 },
    });
    assert_eq!(b.stacks.len(), 1);
    drain(&mut b);
    assert_eq!(b.units[0].hp, 8);
    assert_eq!(b.units[1].hp, 8);
    assert!(!b.units[0].is_dead && !b.units[1].is_dead);
    assert_eq!(b.units[0].ap, 0);
    assert_eq!(b.stage, BattleFlow::PlayerAction);
    // the player ends the turn: the flow advances to turn-end
    b.player_event_system(PlayerActionEvent { player_id: 0, action: PlayerAction::EndTurn });
    drain(&mut b);
    assert_eq!(b.stage, BattleFlow::TurnEnd);
    // turn-end -> post-turn-end -> player-change -> the other player's turn
    b.flow_system();
    assert_eq!(b.stage, BattleFlow::PostTurnEnd);
    b.flow_system();
    assert_eq!(b.stage, BattleFlow::PlayerChange);
    b.flow_system();
    drain(&mut b);
    assert_eq!(b.stage, BattleFlow::PreTurnStart);
    assert_eq!(b.current_player_index, 1);
}

#[test]
fn ai_turn_attacks_and_ends() {
    let mut b = symmetric_battle();
    b.current_player_index = 1;
    b.units[1].ap = 1;
    b.stage = BattleFlow::PlayerAction;
    b.flow_system();
    // end-turn below, one opportunistic attack on top
    assert_eq!(b.stacks.len(), 2);
    let seen = drain(&mut b);
    // the attack resolved first: mutual combat, then the end of the turn
    assert!(seen.iter().any(|e| matches!(e, BattleEvent::UnitCombat(_))));
    assert_eq!(b.units[0].hp, 8);
    assert_eq!(b.units[1].hp, 8);
    assert_eq!(b.stage, BattleFlow::TurnEnd);
}

#[test]
fn gateway_rejects_illegal_actions() {
    // wrong player
    let mut b = symmetric_battle();
    b.stage = BattleFlow::PlayerAction;
    b.units[0].ap = 1;
    b.player_event_system(PlayerActionEvent {
        player_id: 1,
        action: PlayerAction::Attack { source: 1, target: 0 },
    });
    assert!(b.stacks.is_empty());
    // wrong stage
    b.stage = BattleFlow::TurnEnd;
    b.player_event_system(PlayerActionEvent { player_id: 0, action: PlayerAction::EndTurn });
    assert!(b.stacks.is_empty());
    // non-empty stack
    b.stage = BattleFlow::PlayerAction;
    b.push_frame(BattleEvent::PlayerEndTurn(PlayerEndTurn { player: 0 }));
    let depth = b.stacks.len();
    b.player_event_system(PlayerActionEvent { player_id: 0, action: PlayerAction::EndTurn });
    assert_eq!(b.stacks.len(), depth);
}

#[test]
fn gateway_rejects_exhausted_or_dead_attackers() {
    // no action points: the attack is dropped
    let mut b = symmetric_battle();
    b.stage = BattleFlow::PlayerAction;
    b.player_event_system(PlayerActionEvent {
        player_id: 0,
        action: PlayerAction::Attack { source: 0, target: 1 },
    });
    assert!(b.stacks.is_empty());
    // a dead unit is never a valid source for a new use-ability frame
    b.units[0].ap = 1;
    b.units[0].is_dead = true;
    b.player_event_system(PlayerActionEvent {
        player_id: 0,
        action: PlayerAction::Attack { source: 0, target: 1 },
    });
    assert!(b.stacks.is_empty());
    b.player_event_system(PlayerActionEvent {
        player_id: 0,
        action: PlayerAction::UseAbility { ability: 0, source: 0, target: 1 },
    });
    assert!(b.stacks.is_empty());
}

#[test]
fn hurt_emits_before_death_marks() {
    // a unit at hp 2 hurt for 3 reaches -1 and dies before control returns
    let mut b = symmetric_battle();
    b.units[1].hp = 2;
    b.push_frame(BattleEvent::UnitHurt(UnitHurt { source: 0, target: 1, value: 3 }));
    let seen = drain(&mut b);
    assert_eq!(seen.len(), 2);
    assert!(matches!(seen[0], BattleEvent::UnitHurt(_)));
    assert!(matches!(seen[1], BattleEvent::UnitDie(_)));
    assert_eq!(b.units[1].hp, -1);
    assert!(b.units[1].is_dead);
}

#[test]
fn start_battle_lays_each_player_out() {
    let store = load_game();
    let b = start_battle(&store);
    for (p, player) in b.players.iter().enumerate() {
        assert_eq!(player.mp, 5);
        // the character reference points at a board card at (1, 1), face up
        let cc = &b.cards[player.player_card_instance_id];
        assert_eq!(cc.position.position_type, PositionType::Board);
        assert_eq!((cc.position.x, cc.position.y, cc.position.z), (1, 1, 0));
        assert!(cc.position.face_up);
        assert_eq!(cc.position.player_id, p);
        // its unit is alive, without action points, with the store's statistics
        let cu = match cc.card_type {
            CardInstanceType::UnitInstance(u) => &b.units[u],
        };
        assert!(!cu.is_dead);
        assert_eq!(cu.ap, 0);
        assert_eq!(cu.owner, p);
        // deck entries stand face-down in the deck zone at z 0 and 1
        let mut deck: Vec<&CardInstance> = b
            .cards
            .iter()
            .filter(|c| {
                c.position.player_id == p && c.position.position_type == PositionType::Deck
            })
            .collect();
        deck.sort_by_key(|c| c.position.z);
        assert_eq!(deck.len(), 2);
        for (i, card) in deck.iter().enumerate() {
            assert_eq!(card.position.z, i as i32);
            assert!(!card.position.face_up);
        }
    }
    // the characters carry the catalog statistics of You and Enemy
    let you = match b.cards[b.players[0].player_card_instance_id].card_type {
        CardInstanceType::UnitInstance(u) => &b.units[u],
    };
    assert_eq!((you.hp, you.atk, you.def), (10, 5, 0));
    let enemy = match b.cards[b.players[1].player_card_instance_id].card_type {
        CardInstanceType::UnitInstance(u) => &b.units[u],
    };
    assert_eq!((enemy.hp, enemy.atk, enemy.def), (10, 2, 0));
}

#[test]
fn loaded_roster_battle_runs_a_player_turn() {
    let store = load_game();
    let mut b = start_battle(&store);
    assert_eq!(b.players.len(), 2);
    assert_eq!(b.stage, BattleFlow::BattleStart);
    // run the flow up to the player-action park
    let mut guard = 0;
    while !(b.stage == BattleFlow::PlayerAction && b.stacks.is_empty()) {
        b.flow_system();
        drain(&mut b);
        guard += 1;
        assert!(guard < 100, "the flow did not reach the player-action stage");
    }
    // the turn-start draw moved one card from the deck to the hand
    let hand: Vec<&CardInstance> = b
        .cards
        .iter()
        .filter(|c| {
            c.position.player_id == 0 && c.position.position_type == PositionType::Hand
        })
        .collect();
    assert_eq!(hand.len(), 1);
    let deck_count = b
        .cards
        .iter()
        .filter(|c| {
            c.position.player_id == 0 && c.position.position_type == PositionType::Deck
        })
        .count();
    assert_eq!(deck_count, 1);
    // the character gained its action point
    let char_unit = match b.cards[b.players[0].player_card_instance_id].card_type {
        CardInstanceType::UnitInstance(u) => u,
    };
    assert_eq!(b.units[char_unit].ap, 1);
}
