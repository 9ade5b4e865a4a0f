//! Per-unit mutable state and derived-value computation.
//!
//! The effective value of an attribute is computed in a fixed order: positive
//! additive modifiers first, then clamped subtraction of the negative ones,
//! then the product of the multiplicative ones. Preserving this order (and
//! the clamp) is part of the contract, because the server and every client
//! replica must derive bit-identical values.

use vstd::prelude::*;

use crate::aspect::Aspect;
use crate::aspect::aspect_implemented;
use crate::attribute::Attribute;
use crate::content::ContentStore;
use crate::content::ContentStoreView;
use crate::content::Wearable;
use crate::content::wearable_defense;
use crate::dot::DOT;
use crate::gender::Gender;
use crate::item::BodywearIdentifier;
use crate::item::FootwearIdentifier;
use crate::item::HandwearIdentifier;
use crate::item::HeadwearIdentifier;
use crate::item::LegwearIdentifier;
use crate::item::SkillIdentifier;
use crate::item::WeaponIdentifier;
use crate::math::sat_add;
use crate::math::sat_add_spec;
use crate::math::sat_mul;
use crate::math::sat_mul_spec;
use crate::math::sub_clamped;
use crate::math::sub_clamped_spec;
use crate::modifier::Modifier;
use crate::modifier::ModifierExpression;

verus! {

/// Mathematical value of a [`Combatant`].
#[verifier::ext_equal]
pub ghost struct CombatantView {
    pub name: Seq<char>,
    pub gender: Gender,
    pub skills: Seq<SkillIdentifier>,
    pub agility: u64,
    pub dexterity: u64,
    pub intelligence: u64,
    pub mind: u64,
    pub strength: u64,
    pub vigor: u64,
    pub vitality: u64,
    pub bodywear: Option<BodywearIdentifier>,
    pub footwear: Option<FootwearIdentifier>,
    pub handwear: Option<HandwearIdentifier>,
    pub headwear: Option<HeadwearIdentifier>,
    pub legwear: Option<LegwearIdentifier>,
    pub weapon: Option<WeaponIdentifier>,
    pub hp: u64,
    pub fatigue: u64,
    pub dots: Seq<DOT>,
    pub agility_modifiers: Seq<Modifier>,
    pub dexterity_modifiers: Seq<Modifier>,
    pub intelligence_modifiers: Seq<Modifier>,
    pub mind_modifiers: Seq<Modifier>,
    pub strength_modifiers: Seq<Modifier>,
    pub vigor_modifiers: Seq<Modifier>,
    pub vitality_modifiers: Seq<Modifier>,
}

/// One combat unit: identity, base attributes, equipment, current health and
/// turn-readiness, and the attached damage-over-time instances and attribute
/// modifiers.
#[derive(Clone, Debug, PartialEq)]
pub struct Combatant {
    pub name: String,
    pub gender: Gender,
    pub skills: Vec<SkillIdentifier>,
    pub agility: u64,
    pub dexterity: u64,
    pub intelligence: u64,
    pub mind: u64,
    pub strength: u64,
    pub vigor: u64,
    pub vitality: u64,
    pub bodywear: Option<BodywearIdentifier>,
    pub footwear: Option<FootwearIdentifier>,
    pub handwear: Option<HandwearIdentifier>,
    pub headwear: Option<HeadwearIdentifier>,
    pub legwear: Option<LegwearIdentifier>,
    pub weapon: Option<WeaponIdentifier>,
    pub hp: u64,
    pub fatigue: u64,
    pub dots: Vec<DOT>,
    pub agility_modifiers: Vec<Modifier>,
    pub dexterity_modifiers: Vec<Modifier>,
    pub intelligence_modifiers: Vec<Modifier>,
    pub mind_modifiers: Vec<Modifier>,
    pub strength_modifiers: Vec<Modifier>,
    pub vigor_modifiers: Vec<Modifier>,
    pub vitality_modifiers: Vec<Modifier>,
}

impl View for Combatant {
    type V = CombatantView;

    open spec fn view(&self) -> CombatantView {
        CombatantView {
            name: self.name@,
            gender: self.gender,
            skills: self.skills@,
            agility: self.agility,
            dexterity: self.dexterity,
            intelligence: self.intelligence,
            mind: self.mind,
            strength: self.strength,
            vigor: self.vigor,
            vitality: self.vitality,
            bodywear: self.bodywear,
            footwear: self.footwear,
            handwear: self.handwear,
            headwear: self.headwear,
            legwear: self.legwear,
            weapon: self.weapon,
            hp: self.hp,
            fatigue: self.fatigue,
            dots: self.dots@,
            agility_modifiers: self.agility_modifiers@,
            dexterity_modifiers: self.dexterity_modifiers@,
            intelligence_modifiers: self.intelligence_modifiers@,
            mind_modifiers: self.mind_modifiers@,
            strength_modifiers: self.strength_modifiers@,
            vigor_modifiers: self.vigor_modifiers@,
            vitality_modifiers: self.vitality_modifiers@,
        }
    }
}

/// The unmodified base value of `attribute`.
pub open spec fn attribute_raw_of(c: CombatantView, attribute: Attribute) -> u64 {
    match attribute {
        Attribute::Agility => c.agility,
        Attribute::Dexterity => c.dexterity,
        Attribute::Intelligence => c.intelligence,
        Attribute::Mind => c.mind,
        Attribute::Strength => c.strength,
        Attribute::Vigor => c.vigor,
        Attribute::Vitality => c.vitality,
    }
}

/// The modifier list attached to `attribute`.
pub open spec fn modifiers_of(c: CombatantView, attribute: Attribute) -> Seq<Modifier> {
    match attribute {
        Attribute::Agility => c.agility_modifiers,
        Attribute::Dexterity => c.dexterity_modifiers,
        Attribute::Intelligence => c.intelligence_modifiers,
        Attribute::Mind => c.mind_modifiers,
        Attribute::Strength => c.strength_modifiers,
        Attribute::Vigor => c.vigor_modifiers,
        Attribute::Vitality => c.vitality_modifiers,
    }
}

/// Saturating sum of the positive `Add` modifier values, in list order.
pub open spec fn add_sum(mods: Seq<Modifier>) -> int
    decreases mods.len(),
{
    if mods.len() == 0 {
        0
    } else {
        let rest = add_sum(mods.drop_last());
        match mods.last().expression {
            ModifierExpression::Add(v) => if v > 0 {
                sat_add_spec(rest, v as int)
            } else {
                rest
            },
            ModifierExpression::Multiply(_) => rest,
        }
    }
}

/// Saturating sum of the magnitudes of the negative `Add` modifier values,
/// in list order. A modifier whose value is exactly zero contributes to
/// neither sum.
pub open spec fn subtract_sum(mods: Seq<Modifier>) -> int
    decreases mods.len(),
{
    if mods.len() == 0 {
        0
    } else {
        let rest = subtract_sum(mods.drop_last());
        match mods.last().expression {
            ModifierExpression::Add(v) => if v < 0 {
                sat_add_spec(rest, -(v as int))
            } else {
                rest
            },
            ModifierExpression::Multiply(_) => rest,
        }
    }
}

/// Saturating product of the `Multiply` modifier values, in list order.
/// The empty product is one.
pub open spec fn multiply_product(mods: Seq<Modifier>) -> int
    decreases mods.len(),
{
    if mods.len() == 0 {
        1
    } else {
        let rest = multiply_product(mods.drop_last());
        match mods.last().expression {
            ModifierExpression::Add(_) => rest,
            ModifierExpression::Multiply(v) => sat_mul_spec(rest, v as int),
        }
    }
}

/// Base value plus additive modifiers, minus the clamped subtraction, times
/// the multiplicative modifiers — in exactly that order.
pub open spec fn attribute_value_spec(base: u64, mods: Seq<Modifier>) -> int {
    sat_mul_spec(
        sub_clamped_spec(sat_add_spec(base as int, add_sum(mods)), subtract_sum(mods)),
        multiply_product(mods),
    )
}

/// The effective value of `attribute` after all attached modifiers.
pub open spec fn effective_attribute(c: CombatantView, attribute: Attribute) -> int {
    attribute_value_spec(attribute_raw_of(c, attribute), modifiers_of(c, attribute))
}

/// Maximum health: the effective Vigor value.
pub open spec fn hp_max_of(c: CombatantView) -> int {
    effective_attribute(c, Attribute::Vigor)
}

pub open spec fn alive_of(c: CombatantView) -> bool {
    c.hp > 0 && hp_max_of(c) > 0
}

/// Ready to act: alive, and the fatigue countdown has run out.
pub open spec fn ready_of(c: CombatantView) -> bool {
    alive_of(c) && c.fatigue == 0
}

/// Unmitigated damage dealt by `c` for `aspect`; defined for the implemented
/// aspects only. Frost and Lightning have no formula, so their value is
/// left unconstrained here and excluded by precondition everywhere.
pub open spec fn raw_damage_of(c: CombatantView, aspect: Aspect) -> int {
    match aspect {
        Aspect::Fire => sat_mul_spec(
            effective_attribute(c, Attribute::Intelligence),
            effective_attribute(c, Attribute::Mind),
        ) / 2,
        Aspect::Physical => effective_attribute(c, Attribute::Strength),
        Aspect::Frost => vstd::pervasive::arbitrary(),
        Aspect::Lightning => vstd::pervasive::arbitrary(),
    }
}

/// Protection contributed by one optional wearable slot.
pub open spec fn slot_defense(slot: Option<Wearable>, aspect: Aspect) -> int {
    match slot {
        Some(w) => wearable_defense(w, aspect) as int,
        None => 0,
    }
}

/// Total protection against `aspect`: the saturating sum over the five
/// wearable slots, each looked up in the content store; an empty slot
/// contributes zero.
pub open spec fn defense_of(c: CombatantView, store: ContentStoreView, aspect: Aspect) -> int {
    let b = slot_defense(
        match c.bodywear {
            Some(id) => Some(store.bodywear[id.0 as int]),
            None => None,
        },
        aspect,
    );
    let f = slot_defense(
        match c.footwear {
            Some(id) => Some(store.footwear[id.0 as int]),
            None => None,
        },
        aspect,
    );
    let h = slot_defense(
        match c.handwear {
            Some(id) => Some(store.handwear[id.0 as int]),
            None => None,
        },
        aspect,
    );
    let hd = slot_defense(
        match c.headwear {
            Some(id) => Some(store.headwear[id.0 as int]),
            None => None,
        },
        aspect,
    );
    let l = slot_defense(
        match c.legwear {
            Some(id) => Some(store.legwear[id.0 as int]),
            None => None,
        },
        aspect,
    );
    sat_add_spec(sat_add_spec(sat_add_spec(sat_add_spec(b, f), h), hd), l)
}

/// Every equipment identifier and skill identifier of `c` resolves in
/// `store`.
pub open spec fn combatant_ids_wf(c: CombatantView, store: ContentStoreView) -> bool {
    &&& match c.bodywear {
        Some(id) => id.0 < store.bodywear.len(),
        None => true,
    }
    &&& match c.footwear {
        Some(id) => id.0 < store.footwear.len(),
        None => true,
    }
    &&& match c.handwear {
        Some(id) => id.0 < store.handwear.len(),
        None => true,
    }
    &&& match c.headwear {
        Some(id) => id.0 < store.headwear.len(),
        None => true,
    }
    &&& match c.legwear {
        Some(id) => id.0 < store.legwear.len(),
        None => true,
    }
    &&& match c.weapon {
        Some(id) => id.0 < store.weapons.len(),
        None => true,
    }
    &&& forall|i: int| 0 <= i < c.skills.len() ==> (#[trigger] c.skills[i]).0 < store.skills.len()
}

proof fn lemma_add_sum_nonneg(mods: Seq<Modifier>)
    ensures
        add_sum(mods) >= 0,
    decreases mods.len(),
{
    if mods.len() > 0 {
        lemma_add_sum_nonneg(mods.drop_last());
    }
}

proof fn lemma_subtract_sum_nonneg(mods: Seq<Modifier>)
    ensures
        subtract_sum(mods) >= 0,
    decreases mods.len(),
{
    if mods.len() > 0 {
        lemma_subtract_sum_nonneg(mods.drop_last());
    }
}

proof fn lemma_multiply_product_nonneg(mods: Seq<Modifier>)
    ensures
        multiply_product(mods) >= 0,
    decreases mods.len(),
{
    broadcast use vstd::arithmetic::mul::lemma_mul_nonnegative;

    if mods.len() > 0 {
        lemma_multiply_product_nonneg(mods.drop_last());
    }
}

/// An effective attribute value is never negative.
pub proof fn lemma_effective_attribute_nonneg(c: CombatantView, attribute: Attribute)
    ensures
        effective_attribute(c, attribute) >= 0,
{
    broadcast use vstd::arithmetic::mul::lemma_mul_nonnegative;

    let mods = modifiers_of(c, attribute);
    lemma_add_sum_nonneg(mods);
    lemma_subtract_sum_nonneg(mods);
    lemma_multiply_product_nonneg(mods);
}

/// Computes the three modifier aggregates and combines them with `base`.
fn attribute_with_modifiers(base: u64, mods: &Vec<Modifier>) -> (r: u64)
    ensures
        r == attribute_value_spec(base, mods@),
{
    let mut add: u64 = 0;
    let mut subtract: u64 = 0;
    let mut multiply: u64 = 1;
    let mut i: usize = 0;
    while i < mods.len()
        invariant
            i <= mods.len(),
            add == add_sum(mods@.subrange(0, i as int)),
            subtract == subtract_sum(mods@.subrange(0, i as int)),
            multiply == multiply_product(mods@.subrange(0, i as int)),
        decreases mods.len() - i,
    {
        let m = mods[i];
        proof {
            assert(mods@.subrange(0, i as int + 1).drop_last() =~= mods@.subrange(0, i as int));
            assert(mods@.subrange(0, i as int + 1).last() == mods@[i as int]);
        }
        match m.expression {
            ModifierExpression::Add(v) => {
                if v > 0 {
                    add = sat_add(add, v as u64);
                } else if v < 0 {
                    let magnitude: u64 = ((-1 - v) as u64) + 1;
                    subtract = sat_add(subtract, magnitude);
                }
            },
            ModifierExpression::Multiply(v) => {
                multiply = sat_mul(multiply, v);
            },
        }
        i = i + 1;
    }
    proof {
        assert(mods@.subrange(0, mods@.len() as int) =~= mods@);
    }
    let value = sat_add(base, add);
    let value = sub_clamped(value, subtract);
    sat_mul(value, multiply)
}

impl Combatant {
    /// Maximum health, derived from effective Vigor.
    pub fn hp_max(&self) -> (r: u64)
        ensures
            r == hp_max_of(self@),
    {
        self.attribute(Attribute::Vigor)
    }

    /// The maximum health a freshly assembled combatant starts with.
    pub fn hp_max_initial(vigor: u64) -> (r: u64)
        ensures
            r == vigor,
    {
        vigor
    }

    pub fn alive(&self) -> (r: bool)
        ensures
            r == alive_of(self@),
    {
        self.hp > 0 && self.hp_max() > 0
    }

    pub fn dead(&self) -> (r: bool)
        ensures
            r == !alive_of(self@),
    {
        !self.alive()
    }

    pub fn ready(&self) -> (r: bool)
        ensures
            r == ready_of(self@),
    {
        self.alive() && self.fatigue == 0
    }

    pub fn attribute_raw(&self, attribute: Attribute) -> (r: u64)
        ensures
            r == attribute_raw_of(self@, attribute),
    {
        match attribute {
            Attribute::Agility => self.agility,
            Attribute::Dexterity => self.dexterity,
            Attribute::Intelligence => self.intelligence,
            Attribute::Mind => self.mind,
            Attribute::Strength => self.strength,
            Attribute::Vigor => self.vigor,
            Attribute::Vitality => self.vitality,
        }
    }

    /// Effective value of `attribute` after all attached modifiers, in the
    /// fixed additive-then-clamped-then-multiplicative order.
    pub fn attribute(&self, attribute: Attribute) -> (r: u64)
        ensures
            r == effective_attribute(self@, attribute),
    {
        match attribute {
            Attribute::Agility => attribute_with_modifiers(self.agility, &self.agility_modifiers),
            Attribute::Dexterity => attribute_with_modifiers(
                self.dexterity,
                &self.dexterity_modifiers,
            ),
            Attribute::Intelligence => attribute_with_modifiers(
                self.intelligence,
                &self.intelligence_modifiers,
            ),
            Attribute::Mind => attribute_with_modifiers(self.mind, &self.mind_modifiers),
            Attribute::Strength => attribute_with_modifiers(
                self.strength,
                &self.strength_modifiers,
            ),
            Attribute::Vigor => attribute_with_modifiers(self.vigor, &self.vigor_modifiers),
            Attribute::Vitality => attribute_with_modifiers(
                self.vitality,
                &self.vitality_modifiers,
            ),
        }
    }

    /// Unmitigated damage for `aspect`. Frost and Lightning have no formula
    /// yet; asking for them is a content configuration error, so they are
    /// excluded by precondition rather than silently treated as zero.
    pub fn raw_damage(&self, aspect: Aspect) -> (r: u64)
        requires
            aspect_implemented(aspect),
        ensures
            r == raw_damage_of(self@, aspect),
    {
        match aspect {
            Aspect::Fire => {
                let product = sat_mul(
                    self.attribute(Attribute::Intelligence),
                    self.attribute(Attribute::Mind),
                );
                product / 2
            },
            _ => self.attribute(Attribute::Strength),
        }
    }

    /// Total protection against `aspect` from the five wearable slots.
    pub fn defense(&self, store: &ContentStore, aspect: Aspect) -> (r: u64)
        requires
            combatant_ids_wf(self@, store@),
        ensures
            r == defense_of(self@, store@, aspect),
    {
        let mut value: u64 = 0;
        value = match self.bodywear {
            Some(identifier) => sat_add(value, store.bodywear(identifier).defense(aspect)),
            None => value,
        };
        value = match self.footwear {
            Some(identifier) => sat_add(value, store.footwear(identifier).defense(aspect)),
            None => value,
        };
        value = match self.handwear {
            Some(identifier) => sat_add(value, store.handwear(identifier).defense(aspect)),
            None => value,
        };
        value = match self.headwear {
            Some(identifier) => sat_add(value, store.headwear(identifier).defense(aspect)),
            None => value,
        };
        value = match self.legwear {
            Some(identifier) => sat_add(value, store.legwear(identifier).defense(aspect)),
            None => value,
        };
        value
    }

    /// Whether every equipment and skill identifier of this combatant
    /// resolves in `store`.
    pub fn check_ids(&self, store: &ContentStore) -> (r: bool)
        ensures
            r == combatant_ids_wf(self@, store@),
    {
        let mut ok = true;
        ok = ok && match self.bodywear {
            Some(id) => id.0 < store.bodywear.len(),
            None => true,
        };
        ok = ok && match self.footwear {
            Some(id) => id.0 < store.footwear.len(),
            None => true,
        };
        ok = ok && match self.handwear {
            Some(id) => id.0 < store.handwear.len(),
            None => true,
        };
        ok = ok && match self.headwear {
            Some(id) => id.0 < store.headwear.len(),
            None => true,
        };
        ok = ok && match self.legwear {
            Some(id) => id.0 < store.legwear.len(),
            None => true,
        };
        ok = ok && match self.weapon {
            Some(id) => id.0 < store.weapons.len(),
            None => true,
        };
        if !ok {
            return false;
        }
        let mut i: usize = 0;
        #[verifier::loop_isolation(false)]
        while i < self.skills.len()
            invariant
                i <= self@.skills.len(),
                forall|k: int| 0 <= k < i ==> (#[trigger] self@.skills[k]).0 < store@.skills.len(),
            decreases self@.skills.len() - i,
        {
            if self.skills[i].0 >= store.skills.len() {
                return false;
            }
            i = i + 1;
        }
        true
    }

    /// No source of absorption exists yet; every aspect absorbs nothing.
    pub fn absorbtion(&self, aspect: Aspect) -> (r: u64)
        ensures
            r == 0,
    {
        let _ = aspect;
        0
    }
}

} // verus!
