//! Static, content-defined combat effects and their targeting rules.

use vstd::prelude::*;

use crate::aspect::Aspect;
use crate::attribute::Attribute;
use crate::combatant::Combatant;
use crate::gender::Gender;
use crate::lifetime::Lifetime;
use crate::modifier::Modifier;

verus! {

/// Where an effect's values are computed from: no source at all, the target
/// itself (a self-sourced effect), or another combatant.
#[derive(Clone, Copy, Debug)]
pub enum EffectSource<'a> {
    NoSource,
    Origin,
    Other(&'a Combatant),
}

/// One step of an effect: direct damage, an attached damage-over-time
/// instance, or an attribute modifier.
#[derive(Clone, Copy, Debug, Eq, PartialEq, Structural)]
pub enum SubEffect {
    Damage { aspect: Aspect, multiplier: u64 },
    DOT { aspect: Aspect, multiplier: u64, lifetime: Lifetime },
    Modifier { modifier: Modifier, attribute: Attribute },
}

#[derive(Clone, Copy, Debug, Eq, PartialEq, Structural)]
pub enum TargetFlag {
    Any,
    Gender(Gender),
    Origin,
}

/// Whether `flag` admits `target` when the effect comes from `source`.
pub open spec fn target_flag_satisfied(
    flag: TargetFlag,
    target: Combatant,
    source_is_origin: bool,
) -> bool {
    match flag {
        TargetFlag::Any => true,
        TargetFlag::Gender(gender) => target.gender == gender,
        TargetFlag::Origin => source_is_origin,
    }
}

impl TargetFlag {
    pub fn satisfied(&self, target: &Combatant, source: EffectSource) -> (r: bool)
        ensures
            r == target_flag_satisfied(
                *self,
                *target,
                source is Origin,
            ),
    {
        match *self {
            TargetFlag::Any => true,
            TargetFlag::Gender(gender) => target.gender == gender,
            TargetFlag::Origin => match source {
                EffectSource::Origin => true,
                _ => false,
            },
        }
    }
}

/// How many targets an effect asks for.
#[derive(Clone, Copy, Debug, Eq, PartialEq, Structural)]
pub enum TargetingScheme {
    All,
    MultiTarget(usize),
    SingleTarget,
}

impl Default for TargetingScheme {
    fn default() -> (r: TargetingScheme)
        ensures
            r == TargetingScheme::All,
    {
        TargetingScheme::All
    }
}

/// Mathematical value of an [`Effect`].
#[verifier::ext_equal]
pub ghost struct EffectView {
    pub sub_effects: Seq<SubEffect>,
    pub target_flags: Seq<Seq<TargetFlag>>,
    pub targeting_scheme: TargetingScheme,
}

/// An ordered list of sub-effects together with targeting data.
#[derive(Clone, Debug, PartialEq)]
pub struct Effect {
    pub sub_effects: Vec<SubEffect>,
    pub target_flags: Vec<Vec<TargetFlag>>,
    pub targeting_scheme: TargetingScheme,
}

impl View for Effect {
    type V = EffectView;

    open spec fn view(&self) -> EffectView {
        EffectView {
            sub_effects: self.sub_effects@,
            target_flags: self.target_flags@.map_values(|flags: Vec<TargetFlag>| flags@),
            targeting_scheme: self.targeting_scheme,
        }
    }
}

} // verus!
