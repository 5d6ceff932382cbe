//! Battle resolution core for a turn-based card/unit game.
//!
//! The engine resolves turns, player actions, attacks, deaths and triggered
//! abilities through an ordered event pipeline: a last-in-first-out stack of
//! frames, each wrapping one pending battle event plus a worklist of triggered
//! abilities reacting to it.  A turn-flow state machine seeds the stack with
//! the next phase's event whenever the stack has fully drained, and a
//! player-action gateway translates validated player or AI intents into stack
//! pushes.  Rendering, input devices and animation timers are external
//! collaborators: they only observe the events this crate resolves.

pub mod ability;
pub mod action;
pub mod arith;
pub mod battle;
pub mod card;
pub mod events;
pub mod ids;
pub mod laws;
pub mod player;
pub mod position;
pub mod setup;
pub mod unit;
