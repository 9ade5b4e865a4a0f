//! The seven base attributes of a combatant.

use vstd::prelude::*;

verus! {

#[derive(Clone, Copy, Debug, Eq, PartialEq, Structural)]
pub enum Attribute {
    Agility,
    Dexterity,
    Intelligence,
    Mind,
    Strength,
    Vigor,
    Vitality,
}

} // verus!
