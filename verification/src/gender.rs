//! Combatant identity data used by effect target filters.

use vstd::prelude::*;

verus! {

#[derive(Clone, Copy, Debug, Eq, PartialEq, Structural)]
pub enum Gender {
    Unspecified,
    Male,
    Female,
    Other,
}

} // verus!
