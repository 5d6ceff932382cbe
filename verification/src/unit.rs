//! Unit catalog data, loaded units and unit instances.

use vstd::prelude::*;
use crate::ability::AbilityDataId;
use crate::ids::{AbilityId, CardId, PlayerId};

verus! {

/// Identifier of a unit catalog entry.
#[derive(Debug, Clone, Copy, PartialEq, Eq, Structural)]
pub enum UnitDataId {
    Solider,
    Spare,
    You,
    Demon,
    Enemy,
}

/// Status counters carried by a unit during battle.
#[derive(Debug, Clone, Copy, PartialEq, Eq, Structural)]
pub struct Status {
    /// Cannot do anything, awakes when taking damage.
    pub sleep: i8,
    /// Cannot do anything.
    pub stun: i8,
    /// Controlled by the enemy.
    pub charm: i8,
    /// Loses control, acts at random.
    pub fear: i8,
    /// Mad.
    pub curse: i8,
}

impl Status {
    /// All counters cleared, the state a unit enters battle with.
    pub fn clear() -> (r: Status)
        ensures
            r == (Status { sleep: 0, stun: 0, charm: 0, fear: 0, curse: 0 }),
    {
        Status { sleep: 0, stun: 0, charm: 0, fear: 0, curse: 0 }
    }
}

/// An immutable unit catalog entry.
#[derive(Debug, Clone)]
pub struct UnitData {
    pub id: UnitDataId,
    pub name: String,
    pub description: String,
    pub hp: i32,
    pub atk: i32,
    pub def: i32,
    pub abilities: Vec<AbilityDataId>,
}

/// The catalog ability list of the unit catalog entry for `id`.
pub open spec fn unit_entry_abilities(id: UnitDataId) -> Seq<AbilityDataId> {
    seq![AbilityDataId::Attack]
}

/// Exact name and numeric statistics of the unit catalog entry for `id`,
/// stated over the fields so that loaded copies and instances can share the
/// predicate.
pub open spec fn unit_entry_props(
    id: UnitDataId,
    name: Seq<char>,
    description: Seq<char>,
    hp: i32,
    atk: i32,
    def: i32,
) -> bool {
    match id {
        UnitDataId::Solider => {
            &&& name == "Soldier"@
            &&& description == "A Soldier"@
            &&& hp == 10
            &&& atk == 2
            &&& def == 0
        },
        UnitDataId::Spare => {
            &&& name == "Spare"@
            &&& description == "Some spare card"@
            &&& hp == 0
            &&& atk == 0
            &&& def == 0
        },
        UnitDataId::You => {
            &&& name == "You"@
            &&& description == "You, the player"@
            &&& hp == 10
            &&& atk == 5
            &&& def == 0
        },
        UnitDataId::Demon => {
            &&& name == "Demon"@
            &&& description == "A Demon"@
            &&& hp == 10
            &&& atk == 2
            &&& def == 0
        },
        UnitDataId::Enemy => {
            &&& name == "Enemy"@
            &&& description == "Your Enemy!"@
            &&& hp == 10
            &&& atk == 2
            &&& def == 0
        },
    }
}

impl UnitDataId {
    /// Instantiates the catalog entry for this identifier.
    pub fn unit_data(&self) -> (r: UnitData)
        ensures
            r.id == *self,
            unit_entry_props(*self, r.name@, r.description@, r.hp, r.atk, r.def),
            r.abilities@ == unit_entry_abilities(*self),
    {
        match self {
            UnitDataId::Solider => {
                let mut abilities: Vec<AbilityDataId> = Vec::new();
                abilities.push(AbilityDataId::Attack);
                proof {
                    assert(abilities@ =~= seq![AbilityDataId::Attack]);
                }
                UnitData {
                    id: UnitDataId::Solider,
                    name: "Soldier".to_owned(),
                    description: "A Soldier".to_owned(),
                    hp: 10,
                    atk: 2,
                    def: 0,
                    abilities,
                }
            },
            UnitDataId::Spare => {
                let mut abilities: Vec<AbilityDataId> = Vec::new();
                abilities.push(AbilityDataId::Attack);
                proof {
                    assert(abilities@ =~= seq![AbilityDataId::Attack]);
                }
                UnitData {
                    id: UnitDataId::Spare,
                    name: "Spare".to_owned(),
                    description: "Some spare card".to_owned(),
                    hp: 0,
                    atk: 0,
                    def: 0,
                    abilities,
                }
            },
            UnitDataId::You => {
                let mut abilities: Vec<AbilityDataId> = Vec::new();
                abilities.push(AbilityDataId::Attack);
                proof {
                    assert(abilities@ =~= seq![AbilityDataId::Attack]);
                }
                UnitData {
                    id: UnitDataId::You,
                    name: "You".to_owned(),
                    description: "You, the player".to_owned(),
                    hp: 10,
                    atk: 5,
                    def: 0,
                    abilities,
                }
            },
            UnitDataId::Demon => {
                let mut abilities: Vec<AbilityDataId> = Vec::new();
                abilities.push(AbilityDataId::Attack);
                proof {
                    assert(abilities@ =~= seq![AbilityDataId::Attack]);
                }
                UnitData {
                    id: UnitDataId::Demon,
                    name: "Demon".to_owned(),
                    description: "A Demon".to_owned(),
                    hp: 10,
                    atk: 2,
                    def: 0,
                    abilities,
                }
            },
            UnitDataId::Enemy => {
                let mut abilities: Vec<AbilityDataId> = Vec::new();
                abilities.push(AbilityDataId::Attack);
                proof {
                    assert(abilities@ =~= seq![AbilityDataId::Attack]);
                }
                UnitData {
                    id: UnitDataId::Enemy,
                    name: "Enemy".to_owned(),
                    description: "Your Enemy!".to_owned(),
                    hp: 10,
                    atk: 2,
                    def: 0,
                    abilities,
                }
            },
        }
    }
}

/// A loaded unit: a copy of its catalog entry, with references to the loaded
/// abilities created for it, plus the catalog identifier.
#[derive(Debug, Clone)]
pub struct Unit {
    pub name: String,
    pub description: String,
    pub hp: i32,
    pub atk: i32,
    pub def: i32,
    /// Indices of the loaded abilities of this unit.
    pub abilities: Vec<usize>,
    pub unit_data_id: UnitDataId,
}

impl Unit {
    /// Loads a unit by copying its catalog entry; `abilities` are the indices
    /// of the loaded abilities created for it.
    pub fn new(unit_data_id: UnitDataId, abilities: Vec<usize>) -> (r: Unit)
        ensures
            r.unit_data_id == unit_data_id,
            r.abilities@ == abilities@,
            unit_entry_props(unit_data_id, r.name@, r.description@, r.hp, r.atk, r.def),
    {
        let data = unit_data_id.unit_data();
        Unit {
            name: data.name,
            description: data.description,
            hp: data.hp,
            atk: data.atk,
            def: data.def,
            abilities,
            unit_data_id,
        }
    }
}

/// A battle-time unit instance: copied unit fields plus live battle state.
#[derive(Debug, Clone)]
pub struct UnitInstance {
    pub name: String,
    pub description: String,
    pub hp: i32,
    pub atk: i32,
    pub def: i32,
    /// The ability instances owned by this unit.
    pub abilities: Vec<AbilityId>,
    pub unit_data_id: UnitDataId,
    /// Index of the loaded unit this instance was copied from.
    pub unit_id: usize,
    /// Action points, granted at pre-turn-start and spent on abilities.
    pub ap: i32,
    pub states: Status,
    /// The player instance owning this unit.
    pub owner: PlayerId,
    /// The card instance this unit stands on.
    pub card: CardId,
    /// Terminal, idempotent death mark: a dead unit receives no further
    /// ability triggers and is never a valid source for a new ability use.
    pub is_dead: bool,
}

impl UnitInstance {
    /// Creates a battle instance of a loaded unit, owned by the given player
    /// and standing on the given card.
    pub fn new(
        unit_id: usize,
        unit: Unit,
        player_instance_id: PlayerId,
        abilities: Vec<AbilityId>,
        card: CardId,
    ) -> (r: UnitInstance)
        ensures
            r.name@ == unit.name@,
            r.description@ == unit.description@,
            r.hp == unit.hp,
            r.atk == unit.atk,
            r.def == unit.def,
            r.abilities@ == abilities@,
            r.unit_data_id == unit.unit_data_id,
            r.unit_id == unit_id,
            r.ap == 0,
            r.states == Status::clear_spec(),
            r.owner == player_instance_id,
            r.card == card,
            !r.is_dead,
    {
        UnitInstance {
            name: unit.name,
            description: unit.description,
            hp: unit.hp,
            atk: unit.atk,
            def: unit.def,
            abilities,
            unit_data_id: unit.unit_data_id,
            unit_id,
            ap: 0,
            states: Status::clear(),
            owner: player_instance_id,
            card,
            is_dead: false,
        }
    }
}

impl Status {
    /// The cleared status value, for use in specifications.
    pub open spec fn clear_spec() -> Status {
        Status { sleep: 0, stun: 0, charm: 0, fear: 0, curse: 0 }
    }
}

} // verus!
