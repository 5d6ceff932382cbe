//! Catalog data, loaded copies and the small arithmetic helpers.

use card_battle::ability::{
    Ability, AbilityDataId, AbilityEffect, AbilityType, EffectTarget, TargetSelection,
    TriggerCondition, UnitVar,
};
use card_battle::ability::OnBattleEvent;
use card_battle::arith::{damage, sat_add, sat_sub};
use card_battle::card::{CardDataId, CardDataType};
use card_battle::events::{BattleEvent, TurnStart, UnitDie};
use card_battle::unit::UnitDataId;

#[test]
fn ability_data_attack() {
    let d = AbilityDataId::Attack.ability_data();
    assert_eq!(d.id, AbilityDataId::Attack);
    assert_eq!(d.priority, 0);
    assert_eq!(d.name, "Attack");
    assert_eq!(d.description, "Basic Attack");
    assert!(matches!(d.ability_type, AbilityType::Active(TargetSelection::Any)));
    assert_eq!(d.effects.len(), 1);
    assert_eq!(d.effects[0], (EffectTarget::Target, AbilityEffect::Attack));
    assert_eq!(d.ap, 1);
}

#[test]
fn ability_data_killer_trigger() {
    let d = AbilityDataId::Killer.ability_data();
    assert_eq!(d.name, "Killer");
    match d.ability_type {
        AbilityType::Trigger(t) => {
            assert!(matches!(t.event, OnBattleEvent::OnUnitDie));
            assert_eq!(
                t.conditions,
                vec![TriggerCondition::UnitEq(UnitVar::ActionUnit, UnitVar::AbilityUnit)]
            );
        }
        AbilityType::Active(_) => panic!("Killer must be a trigger"),
    }
    assert_eq!(d.effects, vec![(EffectTarget::Target, AbilityEffect::Heal(1))]);
    assert_eq!(d.ap, 0);
}

#[test]
fn ability_data_phoenix_condition() {
    let d = AbilityDataId::Phoenix.ability_data();
    match d.ability_type {
        AbilityType::Trigger(t) => {
            assert!(matches!(t.event, OnBattleEvent::OnUnitDie));
            assert_eq!(
                t.conditions,
                vec![TriggerCondition::UnitEq(UnitVar::TriggerUnit, UnitVar::AbilityUnit)]
            );
        }
        AbilityType::Active(_) => panic!("Phoenix must be a trigger"),
    }
}

#[test]
fn ability_new_copies_catalog_fields() {
    let a = Ability::new(AbilityDataId::Regeneration);
    assert_eq!(a.ability_data_id, AbilityDataId::Regeneration);
    assert_eq!(a.name, "Regeneration");
    assert_eq!(a.ap, 0);
    match a.ability_type {
        AbilityType::Trigger(t) => {
            assert!(matches!(t.event, OnBattleEvent::OnTurnStart));
            assert!(t.conditions.is_empty());
        }
        AbilityType::Active(_) => panic!("Regeneration must be a trigger"),
    }
}

#[test]
fn unit_data_values() {
    let d = UnitDataId::You.unit_data();
    assert_eq!(d.name, "You");
    assert_eq!(d.description, "You, the player");
    assert_eq!((d.hp, d.atk, d.def), (10, 5, 0));
    assert_eq!(d.abilities, vec![AbilityDataId::Attack]);
    let s = UnitDataId::Solider.unit_data();
    assert_eq!(s.name, "Soldier");
    assert_eq!((s.hp, s.atk, s.def), (10, 2, 0));
    let e = UnitDataId::Enemy.unit_data();
    assert_eq!(e.description, "Your Enemy!");
    assert_eq!((e.hp, e.atk, e.def), (10, 2, 0));
    let sp = UnitDataId::Spare.unit_data();
    assert_eq!((sp.hp, sp.atk, sp.def), (0, 0, 0));
}

#[test]
fn card_data_values() {
    let d = CardDataId::Demon.card_data();
    assert_eq!(d.name, "Demon");
    assert_eq!(d.cost, 1);
    assert!(matches!(d.card_type, CardDataType::Unit(UnitDataId::Demon)));
    let y = CardDataId::You.card_data();
    assert!(matches!(y.card_type, CardDataType::Unit(UnitDataId::You)));
}

#[test]
fn match_event_discriminates_by_variant() {
    let die = BattleEvent::UnitDie(UnitDie { dead: 0, killer: 1 });
    let ts = BattleEvent::TurnStart(TurnStart { player: 0 });
    assert!(OnBattleEvent::OnUnitDie.match_event(&die));
    assert!(!OnBattleEvent::OnUnitDie.match_event(&ts));
    assert!(OnBattleEvent::OnTurnStart.match_event(&ts));
    assert!(!OnBattleEvent::OnTurnStart.match_event(&die));
}

#[test]
fn saturating_arithmetic() {
    assert_eq!(sat_sub(2, 3), -1);
    assert_eq!(sat_add(i32::MAX, 1), i32::MAX);
    assert_eq!(sat_sub(i32::MIN, 1), i32::MIN);
    assert_eq!(damage(5, 2), 3);
    assert_eq!(damage(3, 1), 2);
    assert_eq!(damage(1, 4), 0);
    assert_eq!(damage(i32::MAX, i32::MIN), i32::MAX);
}
