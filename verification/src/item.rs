//! Identifiers into the static content store, and inventory items.
//!
//! Content definitions are immutable and loaded once at process start; the
//! simulation refers to them only through these index identifiers.

use vstd::prelude::*;

verus! {

#[derive(Clone, Copy, Debug, Eq, PartialEq, Structural)]
pub struct WeaponIdentifier(pub usize);

#[derive(Clone, Copy, Debug, Eq, PartialEq, Structural)]
pub struct SkillIdentifier(pub usize);

#[derive(Clone, Copy, Debug, Eq, PartialEq, Structural)]
pub struct ConsumableIdentifier(pub usize);

#[derive(Clone, Copy, Debug, Eq, PartialEq, Structural)]
pub struct BodywearIdentifier(pub usize);

#[derive(Clone, Copy, Debug, Eq, PartialEq, Structural)]
pub struct FootwearIdentifier(pub usize);

#[derive(Clone, Copy, Debug, Eq, PartialEq, Structural)]
pub struct HandwearIdentifier(pub usize);

#[derive(Clone, Copy, Debug, Eq, PartialEq, Structural)]
pub struct HeadwearIdentifier(pub usize);

#[derive(Clone, Copy, Debug, Eq, PartialEq, Structural)]
pub struct LegwearIdentifier(pub usize);

/// One entry of a party's inventory.
#[derive(Clone, Copy, Debug, Eq, PartialEq, Structural)]
pub enum Item {
    Bodywear(BodywearIdentifier),
    Consumable(ConsumableIdentifier),
    Footwear(FootwearIdentifier),
    Handwear(HandwearIdentifier),
    Headwear(HeadwearIdentifier),
    Legwear(LegwearIdentifier),
    Weapon(WeaponIdentifier),
}

} // verus!
