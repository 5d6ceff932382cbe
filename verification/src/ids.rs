//! Typed handles into the battle's arenas.
//!
//! The entity/component store of the original engine is modeled as plain
//! index arenas: every instance lives in a `Vec` on the [`crate::battle::Battle`]
//! aggregate, and references between instances are indices into those arenas.
//! Validity of every stored index is part of the battle's well-formedness.

use vstd::prelude::*;

verus! {

/// Index of a player instance in `Battle::players`.
pub type PlayerId = usize;

/// Index of a unit instance in `Battle::units`.
pub type UnitId = usize;

/// Index of an ability instance in `Battle::abilities`.
pub type AbilityId = usize;

/// Index of a card instance in `Battle::cards`.
pub type CardId = usize;

} // verus!
