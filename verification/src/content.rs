//! The static content store: immutable definitions looked up by identifier.
//!
//! The store is assembled once at process start (outside this crate) and is
//! read-only afterwards. Identifiers are indices into its lists; every
//! simulation entry point states which identifiers it expects to resolve.

use vstd::prelude::*;

use crate::aspect::Aspect;
use crate::aspect::aspect_implemented;
use crate::effect::Effect;
use crate::effect::EffectView;
use crate::effect::SubEffect;
use crate::item::BodywearIdentifier;
use crate::item::ConsumableIdentifier;
use crate::item::FootwearIdentifier;
use crate::item::HandwearIdentifier;
use crate::item::HeadwearIdentifier;
use crate::item::LegwearIdentifier;
use crate::item::SkillIdentifier;
use crate::item::WeaponIdentifier;

verus! {

/// Per-aspect protection granted by one worn item.
#[derive(Clone, Debug, PartialEq)]
pub struct Wearable {
    pub display_name: String,
    pub description: String,
    pub defense_fire: u64,
    pub defense_frost: u64,
    pub defense_lightning: u64,
    pub defense_physical: u64,
}

/// The protection `wearable` grants against `aspect`.
pub open spec fn wearable_defense(wearable: Wearable, aspect: Aspect) -> u64 {
    match aspect {
        Aspect::Fire => wearable.defense_fire,
        Aspect::Frost => wearable.defense_frost,
        Aspect::Lightning => wearable.defense_lightning,
        Aspect::Physical => wearable.defense_physical,
    }
}

impl Wearable {
    pub fn defense(&self, aspect: Aspect) -> (r: u64)
        ensures
            r == wearable_defense(*self, aspect),
    {
        match aspect {
            Aspect::Fire => self.defense_fire,
            Aspect::Frost => self.defense_frost,
            Aspect::Lightning => self.defense_lightning,
            Aspect::Physical => self.defense_physical,
        }
    }
}

#[verifier::ext_equal]
pub ghost struct WeaponView {
    pub display_name: Seq<char>,
    pub description: Seq<char>,
    pub effect: EffectView,
}

#[derive(Clone, Debug, PartialEq)]
pub struct Weapon {
    pub display_name: String,
    pub description: String,
    pub effect: Effect,
}

impl View for Weapon {
    type V = WeaponView;

    open spec fn view(&self) -> WeaponView {
        WeaponView {
            display_name: self.display_name@,
            description: self.description@,
            effect: self.effect@,
        }
    }
}

#[verifier::ext_equal]
pub ghost struct SkillView {
    pub display_name: Seq<char>,
    pub description: Seq<char>,
    pub effect: EffectView,
}

#[derive(Clone, Debug, PartialEq)]
pub struct Skill {
    pub display_name: String,
    pub description: String,
    pub effect: Effect,
}

impl View for Skill {
    type V = SkillView;

    open spec fn view(&self) -> SkillView {
        SkillView {
            display_name: self.display_name@,
            description: self.description@,
            effect: self.effect@,
        }
    }
}

#[verifier::ext_equal]
pub ghost struct ConsumableView {
    pub display_name: Seq<char>,
    pub description: Seq<char>,
    pub max_count: u32,
    pub effect: EffectView,
}

#[derive(Clone, Debug, PartialEq)]
pub struct Consumable {
    pub display_name: String,
    pub description: String,
    pub max_count: u32,
    pub effect: Effect,
}

impl View for Consumable {
    type V = ConsumableView;

    open spec fn view(&self) -> ConsumableView {
        ConsumableView {
            display_name: self.display_name@,
            description: self.description@,
            max_count: self.max_count,
            effect: self.effect@,
        }
    }
}

#[verifier::ext_equal]
pub ghost struct ContentStoreView {
    pub weapons: Seq<WeaponView>,
    pub skills: Seq<SkillView>,
    pub consumables: Seq<ConsumableView>,
    pub bodywear: Seq<Wearable>,
    pub footwear: Seq<Wearable>,
    pub handwear: Seq<Wearable>,
    pub headwear: Seq<Wearable>,
    pub legwear: Seq<Wearable>,
}

/// The read-only content store. Identifier types index into the list they
/// are named after.
#[derive(Clone, Debug, PartialEq)]
pub struct ContentStore {
    pub weapons: Vec<Weapon>,
    pub skills: Vec<Skill>,
    pub consumables: Vec<Consumable>,
    pub bodywear: Vec<Wearable>,
    pub footwear: Vec<Wearable>,
    pub handwear: Vec<Wearable>,
    pub headwear: Vec<Wearable>,
    pub legwear: Vec<Wearable>,
}

impl View for ContentStore {
    type V = ContentStoreView;

    open spec fn view(&self) -> ContentStoreView {
        ContentStoreView {
            weapons: self.weapons@.map_values(|w: Weapon| w@),
            skills: self.skills@.map_values(|s: Skill| s@),
            consumables: self.consumables@.map_values(|c: Consumable| c@),
            bodywear: self.bodywear@,
            footwear: self.footwear@,
            handwear: self.handwear@,
            headwear: self.headwear@,
            legwear: self.legwear@,
        }
    }
}

/// Every damage-bearing sub-effect of `effect` uses an implemented aspect.
pub open spec fn effect_aspects_implemented(effect: EffectView) -> bool {
    forall|i: int|
        0 <= i < effect.sub_effects.len() ==> match #[trigger] effect.sub_effects[i] {
            SubEffect::Damage { aspect, .. } => aspect_implemented(aspect),
            SubEffect::DOT { aspect, .. } => aspect_implemented(aspect),
            SubEffect::Modifier { .. } => true,
        }
}

/// A well-formed store never asks the damage formula for an unimplemented
/// aspect. Content data must guarantee this; it is checked when the store is
/// assembled.
pub open spec fn store_wf(store: ContentStoreView) -> bool {
    &&& forall|i: int|
        0 <= i < store.weapons.len() ==> effect_aspects_implemented(
            #[trigger] store.weapons[i].effect,
        )
    &&& forall|i: int|
        0 <= i < store.skills.len() ==> effect_aspects_implemented(
            #[trigger] store.skills[i].effect,
        )
    &&& forall|i: int|
        0 <= i < store.consumables.len() ==> effect_aspects_implemented(
            #[trigger] store.consumables[i].effect,
        )
}

/// Whether every damage-bearing sub-effect of `effect` uses an implemented
/// aspect.
fn check_effect_aspects(effect: &Effect) -> (r: bool)
    ensures
        r == effect_aspects_implemented(effect@),
{
    let mut i: usize = 0;
    #[verifier::loop_isolation(false)]
    while i < effect.sub_effects.len()
        invariant
            i <= effect@.sub_effects.len(),
            forall|k: int|
                0 <= k < i ==> match #[trigger] effect@.sub_effects[k] {
                    SubEffect::Damage { aspect, .. } => aspect_implemented(aspect),
                    SubEffect::DOT { aspect, .. } => aspect_implemented(aspect),
                    SubEffect::Modifier { .. } => true,
                },
        decreases effect@.sub_effects.len() - i,
    {
        let ok = match effect.sub_effects[i] {
            SubEffect::Damage { aspect, .. } => aspect.is_implemented(),
            SubEffect::DOT { aspect, .. } => aspect.is_implemented(),
            SubEffect::Modifier { .. } => true,
        };
        if !ok {
            return false;
        }
        i = i + 1;
    }
    true
}

impl ContentStore {
    /// Whether the assembled store is well-formed: no effect ever asks the
    /// damage formula for an unimplemented aspect. Content loading must
    /// refuse a store that fails this check before any simulation runs.
    pub fn check_store(&self) -> (r: bool)
        ensures
            r == store_wf(self@),
    {
        let mut i: usize = 0;
        #[verifier::loop_isolation(false)]
        while i < self.weapons.len()
            invariant
                i <= self@.weapons.len(),
                forall|k: int|
                    0 <= k < i ==> effect_aspects_implemented(
                        (#[trigger] self@.weapons[k]).effect,
                    ),
            decreases self@.weapons.len() - i,
        {
            proof {
                assert(self@.weapons[i as int] == self.weapons@[i as int]@);
            }
            if !check_effect_aspects(&self.weapons[i].effect) {
                return false;
            }
            i = i + 1;
        }
        let mut i: usize = 0;
        #[verifier::loop_isolation(false)]
        while i < self.skills.len()
            invariant
                i <= self@.skills.len(),
                forall|k: int|
                    0 <= k < i ==> effect_aspects_implemented((#[trigger] self@.skills[k]).effect),
            decreases self@.skills.len() - i,
        {
            proof {
                assert(self@.skills[i as int] == self.skills@[i as int]@);
            }
            if !check_effect_aspects(&self.skills[i].effect) {
                return false;
            }
            i = i + 1;
        }
        let mut i: usize = 0;
        #[verifier::loop_isolation(false)]
        while i < self.consumables.len()
            invariant
                i <= self@.consumables.len(),
                forall|k: int|
                    0 <= k < i ==> effect_aspects_implemented(
                        (#[trigger] self@.consumables[k]).effect,
                    ),
            decreases self@.consumables.len() - i,
        {
            proof {
                assert(self@.consumables[i as int] == self.consumables@[i as int]@);
            }
            if !check_effect_aspects(&self.consumables[i].effect) {
                return false;
            }
            i = i + 1;
        }
        true
    }

    pub fn weapon(&self, identifier: WeaponIdentifier) -> (r: &Weapon)
        requires
            identifier.0 < self@.weapons.len(),
        ensures
            r@ == self@.weapons[identifier.0 as int],
    {
        &self.weapons[identifier.0]
    }

    pub fn skill(&self, identifier: SkillIdentifier) -> (r: &Skill)
        requires
            identifier.0 < self@.skills.len(),
        ensures
            r@ == self@.skills[identifier.0 as int],
    {
        &self.skills[identifier.0]
    }

    pub fn consumable(&self, identifier: ConsumableIdentifier) -> (r: &Consumable)
        requires
            identifier.0 < self@.consumables.len(),
        ensures
            r@ == self@.consumables[identifier.0 as int],
    {
        &self.consumables[identifier.0]
    }

    pub fn bodywear(&self, identifier: BodywearIdentifier) -> (r: &Wearable)
        requires
            identifier.0 < self@.bodywear.len(),
        ensures
            *r == self@.bodywear[identifier.0 as int],
    {
        &self.bodywear[identifier.0]
    }

    pub fn footwear(&self, identifier: FootwearIdentifier) -> (r: &Wearable)
        requires
            identifier.0 < self@.footwear.len(),
        ensures
            *r == self@.footwear[identifier.0 as int],
    {
        &self.footwear[identifier.0]
    }

    pub fn handwear(&self, identifier: HandwearIdentifier) -> (r: &Wearable)
        requires
            identifier.0 < self@.handwear.len(),
        ensures
            *r == self@.handwear[identifier.0 as int],
    {
        &self.handwear[identifier.0]
    }

    pub fn headwear(&self, identifier: HeadwearIdentifier) -> (r: &Wearable)
        requires
            identifier.0 < self@.headwear.len(),
        ensures
            *r == self@.headwear[identifier.0 as int],
    {
        &self.headwear[identifier.0]
    }

    pub fn legwear(&self, identifier: LegwearIdentifier) -> (r: &Wearable)
        requires
            identifier.0 < self@.legwear.len(),
        ensures
            *r == self@.legwear[identifier.0 as int],
    {
        &self.legwear[identifier.0]
    }
}

} // verus!
