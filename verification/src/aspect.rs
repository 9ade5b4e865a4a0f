//! The damage/defense element of an attack or a protection value.

use vstd::prelude::*;

verus! {

#[derive(Clone, Copy, Debug, Eq, PartialEq, Structural)]
pub enum Aspect {
    Fire,
    Frost,
    Lightning,
    Physical,
}

/// Raw damage is defined only for these aspects; the content data must not
/// ask for Frost or Lightning damage until a formula for them exists.
pub open spec fn aspect_implemented(aspect: Aspect) -> bool {
    aspect == Aspect::Fire || aspect == Aspect::Physical
}

impl Aspect {
    pub fn is_implemented(&self) -> (r: bool)
        ensures
            r == aspect_implemented(*self),
    {
        match self {
            Aspect::Fire => true,
            Aspect::Physical => true,
            Aspect::Frost => false,
            Aspect::Lightning => false,
        }
    }
}

} // verus!
