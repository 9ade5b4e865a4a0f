//! Deterministic simulation core for a turn-based combat game.
//!
//! The crate decides what happens when a combat action is applied, who acts
//! next, and how two independently connected clients are paired into a shared
//! match. All state transitions are pure functions of plain integer data, so
//! an authoritative server and a passive client replica converge on identical
//! state without exchanging recomputed snapshots.

use vstd::prelude::*;

pub mod aspect;
pub mod attribute;
pub mod codec;
pub mod combat_event;
pub mod combat_state;
pub mod combatant;
pub mod content;
pub mod dot;
pub mod effect;
pub mod gender;
pub mod item;
pub mod lifetime;
pub mod math;
pub mod menu;
pub mod message;
pub mod modifier;
pub mod party;
pub mod session;
pub mod target;
pub mod turn;

verus! {

} // verus!
