//! A damage-over-time instance attached to one combatant.

use vstd::prelude::*;

use crate::aspect::Aspect;
use crate::lifetime::Lifetime;

verus! {

/// The damage value is computed once when the instance is attached and then
/// reapplied verbatim on every tick.
#[derive(Clone, Copy, Debug, Eq, PartialEq, Structural)]
pub struct DOT {
    pub aspect: Aspect,
    pub damage_value: u64,
    pub lifetime: Lifetime,
}

} // verus!
