//! Ability catalog data, loaded abilities and ability instances.
//!
//! An ability is either active (invoked by player or AI choice, costing
//! action points) or a trigger (fires automatically when a matching battle
//! event occurs, subject to conditions).  Catalog entries are immutable and
//! produced by [`AbilityDataId::ability_data`]; loaded copies and battle
//! instances copy those fields.

use vstd::prelude::*;
use crate::ids::UnitId;

verus! {

/// Identifier of an ability catalog entry.
#[derive(Debug, Clone, Copy, PartialEq, Eq, Structural)]
pub enum AbilityDataId {
    Attack,
    Regeneration,
    Killer,
    Vampire,
    Phoenix,
}

/// How an active ability selects its target.
#[derive(Debug, Clone, Copy, PartialEq, Eq, Structural)]
pub enum TargetSelection {
    NoTarget,
    Alliance,
    Enemy,
    Any,
}

/// The event kinds a trigger ability can react to.
#[derive(Debug, Clone, Copy, PartialEq, Eq, Structural)]
pub enum OnBattleEvent {
    OnTurnStart,
    OnTurnEnd,
    OnPlayerChange,
    OnPlayerDraw,
    OnUnitHurt,
    OnUnitDie,
    OnAbilityStart,
}

/// The three unit roles a trigger condition can refer to: the unit the event
/// happened to, the unit that caused it, and the unit owning the ability.
#[derive(Debug, Clone, Copy, PartialEq, Eq, Structural)]
pub enum UnitVar {
    TriggerUnit,
    ActionUnit,
    AbilityUnit,
}

/// A condition on a trigger: all conditions must hold for the trigger to fire.
#[derive(Debug, Clone, Copy, PartialEq, Eq, Structural)]
pub enum TriggerCondition {
    UnitEq(UnitVar, UnitVar),
}

/// Trigger description: the event kind to react to and the conditions.
#[derive(Debug, Clone)]
pub struct Trigger {
    pub event: OnBattleEvent,
    pub conditions: Vec<TriggerCondition>,
}

/// Whether an ability is actively used or fires on a trigger.
#[derive(Debug, Clone)]
pub enum AbilityType {
    Active(TargetSelection),
    Trigger(Trigger),
}

/// Which units an effect applies to, resolved against the event's source and
/// target and the current roster.
#[derive(Debug, Clone, Copy, PartialEq, Eq, Structural)]
pub enum EffectTarget {
    Target,
    Source,
    AllEnemy,
    AllAlliance,
    AllEnemyExceptTarget,
    AllAllianceExceptTarget,
}

/// What an effect does to each resolved target.
#[derive(Debug, Clone, Copy, PartialEq, Eq, Structural)]
pub enum AbilityEffect {
    Attack,
    Damage(i32),
    Heal(i32),
    SoulDrain(i32),
    Reflection,
    Curse(i32),
    Charm(i32),
}

/// Kind of a damage figure.
#[derive(Debug, Clone, Copy, PartialEq, Eq, Structural)]
pub enum DamageType {
    Attack,
    Spell,
}

/// A damage figure with its kind.
#[derive(Debug, Clone, Copy, PartialEq, Eq, Structural)]
pub struct Damage {
    pub damage_type: DamageType,
    pub damage: i32,
}

/// An immutable ability catalog entry.
#[derive(Debug, Clone)]
pub struct AbilityData {
    pub id: AbilityDataId,
    pub priority: i32,
    pub name: String,
    pub description: String,
    pub ability_type: AbilityType,
    pub effects: Vec<(EffectTarget, AbilityEffect)>,
    pub ap: i32,
}

/// Exact contents of the ability catalog entry for `id`, stated over the
/// fields so that loaded copies and instances can share the predicate.
pub open spec fn ability_entry_props(
    id: AbilityDataId,
    priority: i32,
    name: Seq<char>,
    description: Seq<char>,
    ability_type: AbilityType,
    effects: Seq<(EffectTarget, AbilityEffect)>,
    ap: i32,
) -> bool {
    match id {
        AbilityDataId::Attack => {
            &&& priority == 0
            &&& name == "Attack"@
            &&& description == "Basic Attack"@
            &&& ability_type == (AbilityType::Active(TargetSelection::Any))
            &&& effects.len() == 1
            &&& effects[0] == ((EffectTarget::Target, AbilityEffect::Attack))
            &&& ap == 1
        },
        AbilityDataId::Regeneration => {
            &&& priority == 0
            &&& name == "Regeneration"@
            &&& description == "Regeneration"@
            &&& (ability_type matches AbilityType::Trigger(t) && t.event
                == OnBattleEvent::OnTurnStart && t.conditions@.len() == 0)
            &&& effects.len() == 1
            &&& effects[0] == ((EffectTarget::Target, AbilityEffect::Heal(1)))
            &&& ap == 0
        },
        AbilityDataId::Killer => {
            &&& priority == 0
            &&& name == "Killer"@
            &&& description == "Killer"@
            &&& (ability_type matches AbilityType::Trigger(t) && t.event
                == OnBattleEvent::OnUnitDie && t.conditions@.len() == 1 && t.conditions@[0]
                == (TriggerCondition::UnitEq(UnitVar::ActionUnit, UnitVar::AbilityUnit)))
            &&& effects.len() == 1
            &&& effects[0] == ((EffectTarget::Target, AbilityEffect::Heal(1)))
            &&& ap == 0
        },
        AbilityDataId::Vampire => {
            &&& priority == 0
            &&& name == "Vampire"@
            &&& description == "Vampire"@
            &&& (ability_type matches AbilityType::Trigger(t) && t.event
                == OnBattleEvent::OnUnitDie && t.conditions@.len() == 1 && t.conditions@[0]
                == (TriggerCondition::UnitEq(UnitVar::ActionUnit, UnitVar::AbilityUnit)))
            &&& effects.len() == 1
            &&& effects[0] == ((EffectTarget::Target, AbilityEffect::Heal(1)))
            &&& ap == 0
        },
        AbilityDataId::Phoenix => {
            &&& priority == 0
            &&& name == "Phoenix"@
            &&& description == "Phoenix"@
            &&& (ability_type matches AbilityType::Trigger(t) && t.event
                == OnBattleEvent::OnUnitDie && t.conditions@.len() == 1 && t.conditions@[0]
                == (TriggerCondition::UnitEq(UnitVar::TriggerUnit, UnitVar::AbilityUnit)))
            &&& effects.len() == 1
            &&& effects[0] == ((EffectTarget::Target, AbilityEffect::Heal(1)))
            &&& ap == 0
        },
    }
}

impl AbilityDataId {
    /// Instantiates the catalog entry for this identifier.
    pub fn ability_data(&self) -> (r: AbilityData)
        ensures
            r.id == *self,
            ability_entry_props(*self, r.priority, r.name@, r.description@, r.ability_type,
                r.effects@, r.ap),
    {
        match self {
            AbilityDataId::Attack => {
                let mut effects: Vec<(EffectTarget, AbilityEffect)> = Vec::new();
                effects.push((EffectTarget::Target, AbilityEffect::Attack));
                AbilityData {
                    id: AbilityDataId::Attack,
                    priority: 0,
                    name: "Attack".to_owned(),
                    description: "Basic Attack".to_owned(),
                    ability_type: AbilityType::Active(TargetSelection::Any),
                    effects,
                    ap: 1,
                }
            },
            AbilityDataId::Regeneration => {
                let mut effects: Vec<(EffectTarget, AbilityEffect)> = Vec::new();
                effects.push((EffectTarget::Target, AbilityEffect::Heal(1)));
                AbilityData {
                    id: AbilityDataId::Regeneration,
                    priority: 0,
                    name: "Regeneration".to_owned(),
                    description: "Regeneration".to_owned(),
                    ability_type: AbilityType::Trigger(
                        Trigger { event: OnBattleEvent::OnTurnStart, conditions: Vec::new() },
                    ),
                    effects,
                    ap: 0,
                }
            },
            AbilityDataId::Killer => {
                let mut effects: Vec<(EffectTarget, AbilityEffect)> = Vec::new();
                effects.push((EffectTarget::Target, AbilityEffect::Heal(1)));
                let mut conditions: Vec<TriggerCondition> = Vec::new();
                conditions.push(TriggerCondition::UnitEq(UnitVar::ActionUnit, UnitVar::AbilityUnit));
                AbilityData {
                    id: AbilityDataId::Killer,
                    priority: 0,
                    name: "Killer".to_owned(),
                    description: "Killer".to_owned(),
                    ability_type: AbilityType::Trigger(
                        Trigger { event: OnBattleEvent::OnUnitDie, conditions },
                    ),
                    effects,
                    ap: 0,
                }
            },
            AbilityDataId::Vampire => {
                let mut effects: Vec<(EffectTarget, AbilityEffect)> = Vec::new();
                effects.push((EffectTarget::Target, AbilityEffect::Heal(1)));
                let mut conditions: Vec<TriggerCondition> = Vec::new();
                conditions.push(TriggerCondition::UnitEq(UnitVar::ActionUnit, UnitVar::AbilityUnit));
                AbilityData {
                    id: AbilityDataId::Vampire,
                    priority: 0,
                    name: "Vampire".to_owned(),
                    description: "Vampire".to_owned(),
                    ability_type: AbilityType::Trigger(
                        Trigger { event: OnBattleEvent::OnUnitDie, conditions },
                    ),
                    effects,
                    ap: 0,
                }
            },
            AbilityDataId::Phoenix => {
                let mut effects: Vec<(EffectTarget, AbilityEffect)> = Vec::new();
                effects.push((EffectTarget::Target, AbilityEffect::Heal(1)));
                let mut conditions: Vec<TriggerCondition> = Vec::new();
                conditions.push(
                    TriggerCondition::UnitEq(UnitVar::TriggerUnit, UnitVar::AbilityUnit),
                );
                AbilityData {
                    id: AbilityDataId::Phoenix,
                    priority: 0,
                    name: "Phoenix".to_owned(),
                    description: "Phoenix".to_owned(),
                    ability_type: AbilityType::Trigger(
                        Trigger { event: OnBattleEvent::OnUnitDie, conditions },
                    ),
                    effects,
                    ap: 0,
                }
            },
        }
    }
}

/// A loaded ability: a copy of its catalog entry plus the catalog identifier.
#[derive(Debug, Clone)]
pub struct Ability {
    pub priority: i32,
    pub name: String,
    pub description: String,
    pub ability_type: AbilityType,
    pub effects: Vec<(EffectTarget, AbilityEffect)>,
    pub ap: i32,
    pub ability_data_id: AbilityDataId,
}

impl Ability {
    /// Loads an ability by copying its catalog entry.
    pub fn new(ability_data_id: AbilityDataId) -> (r: Ability)
        ensures
            r.ability_data_id == ability_data_id,
            ability_entry_props(ability_data_id, r.priority, r.name@, r.description@,
                r.ability_type, r.effects@, r.ap),
    {
        let data = ability_data_id.ability_data();
        Ability {
            priority: data.priority,
            name: data.name,
            description: data.description,
            ability_type: data.ability_type,
            effects: data.effects,
            ap: data.ap,
            ability_data_id,
        }
    }
}

/// A battle-time ability instance: copied ability fields, the catalog and
/// loaded-ability identifiers, and a back-reference to the unit instance
/// that owns it.
#[derive(Debug, Clone)]
pub struct AbilityInstance {
    pub priority: i32,
    pub name: String,
    pub description: String,
    pub ability_type: AbilityType,
    pub effects: Vec<(EffectTarget, AbilityEffect)>,
    pub ap: i32,
    pub ability_data_id: AbilityDataId,
    /// Index of the loaded ability this instance was copied from.
    pub ability_id: usize,
    /// The unit instance owning this ability.
    pub owner_unit: UnitId,
}

impl AbilityInstance {
    /// Creates a battle instance of a loaded ability, owned by `owner_unit`.
    pub fn new(ability_id: usize, ability: Ability, owner_unit: UnitId) -> (r: AbilityInstance)
        ensures
            r.priority == ability.priority,
            r.name@ == ability.name@,
            r.description@ == ability.description@,
            r.ability_type == ability.ability_type,
            r.effects@ == ability.effects@,
            r.ap == ability.ap,
            r.ability_data_id == ability.ability_data_id,
            r.ability_id == ability_id,
            r.owner_unit == owner_unit,
    {
        AbilityInstance {
            priority: ability.priority,
            name: ability.name,
            description: ability.description,
            ability_type: ability.ability_type,
            effects: ability.effects,
            ap: ability.ap,
            ability_data_id: ability.ability_data_id,
            ability_id,
            owner_unit,
        }
    }
}

} // verus!
