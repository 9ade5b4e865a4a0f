//! The wire-level combat actions a client can submit.

use vstd::prelude::*;

use crate::item::ConsumableIdentifier;
use crate::item::SkillIdentifier;
use crate::target::Target;

verus! {

/// Mathematical value of a [`CombatEvent`].
#[verifier::ext_equal]
pub ghost enum CombatEventView {
    Attack { source: Target, targets: Seq<Target> },
    Consumable { source: Target, consumable: ConsumableIdentifier, targets: Seq<Target> },
    Skill { source: Target, skill: SkillIdentifier, targets: Seq<Target> },
    Skip,
}

/// One combat action. Events are constructed, sent, applied and discarded;
/// both sides of a match apply the identical event to their own replica.
#[derive(Clone, Debug, PartialEq)]
pub enum CombatEvent {
    AttackEvent { source: Target, targets: Vec<Target> },
    ConsumableEvent { source: Target, consumable: ConsumableIdentifier, targets: Vec<Target> },
    SkillEvent { source: Target, skill: SkillIdentifier, targets: Vec<Target> },
    SkipEvent,
}

impl View for CombatEvent {
    type V = CombatEventView;

    open spec fn view(&self) -> CombatEventView {
        match *self {
            CombatEvent::AttackEvent { source, targets } => CombatEventView::Attack {
                source,
                targets: targets@,
            },
            CombatEvent::ConsumableEvent { source, consumable, targets } => CombatEventView::Consumable {
                source,
                consumable,
                targets: targets@,
            },
            CombatEvent::SkillEvent { source, skill, targets } => CombatEventView::Skill {
                source,
                skill,
                targets: targets@,
            },
            CombatEvent::SkipEvent => CombatEventView::Skip,
        }
    }
}

} // verus!
