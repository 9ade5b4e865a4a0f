//! An ordered roster of combatants plus a shared inventory.

use vstd::prelude::*;

use crate::combatant::Combatant;
use crate::combatant::CombatantView;
use crate::item::Item;

verus! {

/// Mathematical value of a [`Party`].
#[verifier::ext_equal]
pub ghost struct PartyView {
    pub members: Seq<CombatantView>,
    pub inventory: Seq<Item>,
}

/// Member order is significant: it defines the member index used by
/// [`crate::target::Target`].
#[derive(Clone, Debug, PartialEq)]
pub struct Party {
    pub members: Vec<Combatant>,
    pub inventory: Vec<Item>,
}

impl View for Party {
    type V = PartyView;

    open spec fn view(&self) -> PartyView {
        PartyView {
            members: self.members@.map_values(|c: Combatant| c@),
            inventory: self.inventory@,
        }
    }
}

} // verus!
