//! A non-owning locator for one combatant inside a combat state.

use vstd::prelude::*;

verus! {

/// Indices into the party list and into that party's member list. A target
/// carries no binding to a particular combat state; callers must resolve it
/// against the snapshot it was produced for.
#[derive(Clone, Copy, Debug, Eq, PartialEq, Structural)]
pub struct Target {
    pub party_index: usize,
    pub member_index: usize,
}

} // verus!
