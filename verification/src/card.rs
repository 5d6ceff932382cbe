//! Card catalog data, loaded cards and card instances.

use vstd::prelude::*;
use crate::ids::UnitId;
use crate::position::Position;
use crate::unit::UnitDataId;

verus! {

/// Identifier of a card catalog entry.
#[derive(Debug, Clone, Copy, PartialEq, Eq, Structural)]
pub enum CardDataId {
    Solider,
    Spare,
    You,
    Demon,
    Enemy,
}

/// What a catalog card wraps: today only a unit.
#[derive(Debug, Clone, Copy, PartialEq, Eq, Structural)]
pub enum CardDataType {
    Unit(UnitDataId),
}

/// An immutable card catalog entry.
#[derive(Debug, Clone)]
pub struct CardData {
    pub id: CardDataId,
    pub name: String,
    pub cost: i32,
    pub card_type: CardDataType,
}

/// Exact contents of the card catalog entry for `id`, stated over the fields
/// so that loaded copies and instances can share the predicate.
pub open spec fn card_entry_props(
    id: CardDataId,
    name: Seq<char>,
    cost: i32,
    card_type: CardDataType,
) -> bool {
    match id {
        CardDataId::Solider => {
            &&& name == "Soldier"@
            &&& cost == 1
            &&& card_type == CardDataType::Unit(UnitDataId::Solider)
        },
        CardDataId::Spare => {
            &&& name == "Spare"@
            &&& cost == 1
            &&& card_type == CardDataType::Unit(UnitDataId::Spare)
        },
        CardDataId::You => {
            &&& name == "You"@
            &&& cost == 1
            &&& card_type == CardDataType::Unit(UnitDataId::You)
        },
        CardDataId::Demon => {
            &&& name == "Demon"@
            &&& cost == 1
            &&& card_type == CardDataType::Unit(UnitDataId::Demon)
        },
        CardDataId::Enemy => {
            &&& name == "Enemy"@
            &&& cost == 1
            &&& card_type == CardDataType::Unit(UnitDataId::Enemy)
        },
    }
}

impl CardDataId {
    /// Instantiates the catalog entry for this identifier.
    pub fn card_data(&self) -> (r: CardData)
        ensures
            r.id == *self,
            card_entry_props(*self, r.name@, r.cost, r.card_type),
    {
        match self {
            CardDataId::Solider => CardData {
                id: CardDataId::Solider,
                name: "Soldier".to_owned(),
                cost: 1,
                card_type: CardDataType::Unit(UnitDataId::Solider),
            },
            CardDataId::Spare => CardData {
                id: CardDataId::Spare,
                name: "Spare".to_owned(),
                cost: 1,
                card_type: CardDataType::Unit(UnitDataId::Spare),
            },
            CardDataId::You => CardData {
                id: CardDataId::You,
                name: "You".to_owned(),
                cost: 1,
                card_type: CardDataType::Unit(UnitDataId::You),
            },
            CardDataId::Demon => CardData {
                id: CardDataId::Demon,
                name: "Demon".to_owned(),
                cost: 1,
                card_type: CardDataType::Unit(UnitDataId::Demon),
            },
            CardDataId::Enemy => CardData {
                id: CardDataId::Enemy,
                name: "Enemy".to_owned(),
                cost: 1,
                card_type: CardDataType::Unit(UnitDataId::Enemy),
            },
        }
    }
}

/// What a loaded card wraps: the index of a loaded unit.
#[derive(Debug, Clone, Copy, PartialEq, Eq, Structural)]
pub enum CardType {
    Unit(usize),
}

/// A loaded card: a copy of its catalog entry plus the catalog identifier.
#[derive(Debug, Clone)]
pub struct Card {
    pub name: String,
    pub cost: i32,
    pub card_type: CardType,
    pub card_data_id: CardDataId,
}

impl Card {
    /// Loads a card by copying its catalog entry; `card_type` references the
    /// loaded unit created for it.
    pub fn new(card_data_id: CardDataId, card_type: CardType) -> (r: Card)
        ensures
            r.card_data_id == card_data_id,
            r.card_type == card_type,
            exists|d: CardDataType| card_entry_props(card_data_id, r.name@, r.cost, d),
    {
        let card_data = card_data_id.card_data();
        let ghost catalog_type = card_data.card_type;
        let r = Card { card_data_id, name: card_data.name, cost: card_data.cost, card_type };
        proof {
            assert(card_entry_props(card_data_id, r.name@, r.cost, catalog_type));
        }
        r
    }
}

/// What a card instance wraps: the index of a unit instance.
#[derive(Debug, Clone, Copy, PartialEq, Eq, Structural)]
pub enum CardInstanceType {
    UnitInstance(UnitId),
}

/// A battle-time card instance: copied card fields, its position on the
/// battlefield, and the unit instance it wraps.
#[derive(Debug, Clone)]
pub struct CardInstance {
    pub name: String,
    pub cost: i32,
    pub card_type: CardInstanceType,
    pub card_data_id: CardDataId,
    /// Index of the loaded card this instance was copied from.
    pub card_id: usize,
    /// Zone, coordinates and stacking order of this card.
    pub position: Position,
}

impl CardInstance {
    /// Creates a battle instance of a loaded card at the given position.
    pub fn new(card_id: usize, card: Card, card_type: CardInstanceType, position: Position) -> (r:
        CardInstance)
        ensures
            r.name@ == card.name@,
            r.cost == card.cost,
            r.card_type == card_type,
            r.card_data_id == card.card_data_id,
            r.card_id == card_id,
            r.position == position,
    {
        CardInstance {
            name: card.name,
            cost: card.cost,
            card_type,
            card_data_id: card.card_data_id,
            card_id,
            position,
        }
    }
}

} // verus!
