//! The shared combat state machine: effect resolution, the per-event tick,
//! and the fatigue/agility turn scheduler.
//!
//! Everything here is a deterministic function of the current state, the
//! incoming event and the content store, so the authoritative server and
//! every client replica stay in lock step by applying the same events.

use vstd::prelude::*;

use crate::aspect::Aspect;
use crate::aspect::aspect_implemented;
use crate::attribute::Attribute;
use crate::combat_event::CombatEvent;
use crate::combat_event::CombatEventView;
use crate::combatant::Combatant;
use crate::combatant::CombatantView;
use crate::combatant::combatant_ids_wf;
use crate::combatant::alive_of;
use crate::combatant::lemma_effective_attribute_nonneg;
use crate::combatant::defense_of;
use crate::combatant::effective_attribute;
use crate::combatant::raw_damage_of;
use crate::combatant::ready_of;
use crate::content::ContentStore;
use crate::content::ContentStoreView;
use crate::content::effect_aspects_implemented;
use crate::content::store_wf;
use crate::dot::DOT;
use crate::effect::SubEffect;
use crate::lifetime::lifetime_ticked;
use crate::math::sat_mul;
use crate::math::sat_mul_spec;
use crate::math::sub_clamped;
use crate::math::sub_clamped_spec;
use crate::modifier::Modifier;
use crate::party::Party;
use crate::party::PartyView;
use crate::target::Target;

verus! {

/// The full state of one match: an ordered list of parties. Parties are
/// never removed mid-match, so indices stay stable for its whole lifetime.
#[derive(Clone, Debug, PartialEq)]
pub struct CombatState {
    pub parties: Vec<Party>,
}

impl View for CombatState {
    type V = Seq<PartyView>;

    open spec fn view(&self) -> Seq<PartyView> {
        self.parties@.map_values(|p: Party| p@)
    }
}

/// Both indices of `t` resolve inside `stv`.
pub open spec fn target_in_bounds(stv: Seq<PartyView>, t: Target) -> bool {
    t.party_index < stv.len() && t.member_index < stv[t.party_index as int].members.len()
}

/// The combatant `t` resolves to.
pub open spec fn member_at(stv: Seq<PartyView>, t: Target) -> CombatantView {
    stv[t.party_index as int].members[t.member_index as int]
}

/// `stv` with the combatant at `t` replaced by `c`.
pub open spec fn with_member(stv: Seq<PartyView>, t: Target, c: CombatantView) -> Seq<PartyView> {
    stv.update(
        t.party_index as int,
        PartyView {
            members: stv[t.party_index as int].members.update(t.member_index as int, c),
            ..stv[t.party_index as int]
        },
    )
}

/// Damage application: when `damage` exceeds the target's defense, health
/// drops by the difference (scaled by the absorption placeholder of zero),
/// clamped so it never goes below zero; otherwise defense fully absorbs the
/// hit and health is unchanged.
pub open spec fn damaged(
    c: CombatantView,
    store: ContentStoreView,
    aspect: Aspect,
    damage: int,
) -> CombatantView {
    let defense = defense_of(c, store, aspect);
    if damage > defense {
        CombatantView { hp: sub_clamped_spec(c.hp as int, damage - defense) as u64, ..c }
    } else {
        c
    }
}

/// The damage value of one sub-effect: the raw damage of the source if one
/// is present — of the target itself otherwise — times the multiplier.
pub open spec fn damage_value_of(
    source: Option<CombatantView>,
    target: CombatantView,
    aspect: Aspect,
    multiplier: u64,
) -> int {
    let raw = match source {
        Some(s) => raw_damage_of(s, aspect),
        None => raw_damage_of(target, aspect),
    };
    sat_mul_spec(raw, multiplier as int)
}

/// `c` with `modifier` appended to the list attached to `attribute`.
pub open spec fn with_modifier_pushed(
    c: CombatantView,
    attribute: Attribute,
    modifier: Modifier,
) -> CombatantView {
    match attribute {
        Attribute::Agility => CombatantView {
            agility_modifiers: c.agility_modifiers.push(modifier),
            ..c
        },
        Attribute::Dexterity => CombatantView {
            dexterity_modifiers: c.dexterity_modifiers.push(modifier),
            ..c
        },
        Attribute::Intelligence => CombatantView {
            intelligence_modifiers: c.intelligence_modifiers.push(modifier),
            ..c
        },
        Attribute::Mind => CombatantView { mind_modifiers: c.mind_modifiers.push(modifier), ..c },
        Attribute::Strength => CombatantView {
            strength_modifiers: c.strength_modifiers.push(modifier),
            ..c
        },
        Attribute::Vigor => CombatantView {
            vigor_modifiers: c.vigor_modifiers.push(modifier),
            ..c
        },
        Attribute::Vitality => CombatantView {
            vitality_modifiers: c.vitality_modifiers.push(modifier),
            ..c
        },
    }
}

/// The aspects a sub-effect computes damage for must have a damage formula.
pub open spec fn sub_effect_aspect_implemented(sub_effect: SubEffect) -> bool {
    match sub_effect {
        SubEffect::Damage { aspect, .. } => aspect_implemented(aspect),
        SubEffect::DOT { aspect, .. } => aspect_implemented(aspect),
        SubEffect::Modifier { .. } => true,
    }
}

/// One sub-effect applied to `c`, with values computed against `source` when
/// present and against `c` itself otherwise. Damage-over-time instances
/// stack unconditionally; modifiers are appended without deduplication.
pub open spec fn sub_effect_applied(
    source: Option<CombatantView>,
    c: CombatantView,
    store: ContentStoreView,
    sub_effect: SubEffect,
) -> CombatantView {
    match sub_effect {
        SubEffect::Damage { aspect, multiplier } => damaged(
            c,
            store,
            aspect,
            damage_value_of(source, c, aspect, multiplier),
        ),
        SubEffect::DOT { aspect, multiplier, lifetime } => CombatantView {
            dots: c.dots.push(
                DOT {
                    aspect,
                    damage_value: damage_value_of(source, c, aspect, multiplier) as u64,
                    lifetime,
                },
            ),
            ..c
        },
        SubEffect::Modifier { modifier, attribute } => with_modifier_pushed(c, attribute, modifier),
    }
}

/// The view of an optional source reference.
pub open spec fn opt_combatant_view(source: Option<&Combatant>) -> Option<CombatantView> {
    match source {
        Some(s) => Some(s@),
        None => None,
    }
}

/// The view of an optional source locator, resolved against `stv`.
pub open spec fn source_view(stv: Seq<PartyView>, source: Option<Target>) -> Option<CombatantView> {
    match source {
        Some(s) => Some(member_at(stv, s)),
        None => None,
    }
}

/// Applies `damage` of `aspect` to `target`: health drops by the margin over
/// the target's defense, never below zero; a hit at or under the defense
/// leaves health unchanged.
pub fn process_damage(target: &mut Combatant, store: &ContentStore, aspect: Aspect, damage: u64)
    requires
        combatant_ids_wf(old(target)@, store@),
    ensures
        final(target)@ == damaged(old(target)@, store@, aspect, damage as int),
        final(target)@.hp >= 0,
{
    let defense = target.defense(store, aspect);
    let absorbtion = target.absorbtion(aspect);
    let _ = absorbtion;
    if damage > defense {
        target.hp = sub_clamped(target.hp, damage - defense);
    }
    proof {
        assert(final(target)@ =~= damaged(old(target)@, store@, aspect, damage as int));
    }
}

/// The damage value of one sub-effect, computed against the source when one
/// is present and against the target itself otherwise.
pub fn calculate_damage_value(
    source: Option<&Combatant>,
    target: &Combatant,
    aspect: Aspect,
    multiplier: u64,
) -> (r: u64)
    requires
        aspect_implemented(aspect),
    ensures
        r == damage_value_of(opt_combatant_view(source), target@, aspect, multiplier),
{
    let raw_damage = match source {
        Some(source) => source.raw_damage(aspect),
        None => target.raw_damage(aspect),
    };
    sat_mul(raw_damage, multiplier)
}

/// Resolves one sub-effect against the combatant at `target`, reading the
/// source combatant (when a distinct one exists) from the same state. The
/// caller passes `None` for a self-sourced effect, in which case the target
/// is borrowed alone.
pub fn handle_sub_effect(
    state: &mut CombatState,
    store: &ContentStore,
    source: Option<Target>,
    target: Target,
    sub_effect: SubEffect,
)
    requires
        target_in_bounds(old(state)@, target),
        match source {
            Some(s) => target_in_bounds(old(state)@, s) && s != target,
            None => true,
        },
        combatant_ids_wf(member_at(old(state)@, target), store@),
        sub_effect_aspect_implemented(sub_effect),
    ensures
        final(state)@ == with_member(
            old(state)@,
            target,
            sub_effect_applied(
                source_view(old(state)@, source),
                member_at(old(state)@, target),
                store@,
                sub_effect,
            ),
        ),
{
    match sub_effect {
        SubEffect::Damage { aspect, multiplier } => {
            let value = {
                let target_ref = &state.parties[target.party_index].members[target.member_index];
                match source {
                    Some(s) => calculate_damage_value(
                        Some(&state.parties[s.party_index].members[s.member_index]),
                        target_ref,
                        aspect,
                        multiplier,
                    ),
                    None => calculate_damage_value(None, target_ref, aspect, multiplier),
                }
            };
            let member = &mut state.parties[target.party_index].members[target.member_index];
            process_damage(member, store, aspect, value);
            proof {
                assert(final(state)@ =~~= with_member(
                    old(state)@,
                    target,
                    sub_effect_applied(
                        source_view(old(state)@, source),
                        member_at(old(state)@, target),
                        store@,
                        sub_effect,
                    ),
                ));
            }
        },
        SubEffect::DOT { aspect, multiplier, lifetime } => {
            let value = {
                let target_ref = &state.parties[target.party_index].members[target.member_index];
                match source {
                    Some(s) => calculate_damage_value(
                        Some(&state.parties[s.party_index].members[s.member_index]),
                        target_ref,
                        aspect,
                        multiplier,
                    ),
                    None => calculate_damage_value(None, target_ref, aspect, multiplier),
                }
            };
            let member = &mut state.parties[target.party_index].members[target.member_index];
            member.dots.push(DOT { aspect, damage_value: value, lifetime });
            proof {
                assert(final(state)@ =~~= with_member(
                    old(state)@,
                    target,
                    sub_effect_applied(
                        source_view(old(state)@, source),
                        member_at(old(state)@, target),
                        store@,
                        sub_effect,
                    ),
                ));
            }
        },
        SubEffect::Modifier { modifier, attribute } => {
            let member = &mut state.parties[target.party_index].members[target.member_index];
            match attribute {
                Attribute::Agility => member.agility_modifiers.push(modifier),
                Attribute::Dexterity => member.dexterity_modifiers.push(modifier),
                Attribute::Intelligence => member.intelligence_modifiers.push(modifier),
                Attribute::Mind => member.mind_modifiers.push(modifier),
                Attribute::Strength => member.strength_modifiers.push(modifier),
                Attribute::Vigor => member.vigor_modifiers.push(modifier),
                Attribute::Vitality => member.vitality_modifiers.push(modifier),
            }
            proof {
                assert(final(state)@ =~~= with_member(
                    old(state)@,
                    target,
                    sub_effect_applied(
                        source_view(old(state)@, source),
                        member_at(old(state)@, target),
                        store@,
                        sub_effect,
                    ),
                ));
            }
        },
    }
}

/// The two combatants agree on everything an effect application never
/// touches: identity, base attributes, equipment and skills.
pub open spec fn same_identity(c1: CombatantView, c2: CombatantView) -> bool {
    &&& c2.name == c1.name
    &&& c2.gender == c1.gender
    &&& c2.skills == c1.skills
    &&& c2.agility == c1.agility
    &&& c2.dexterity == c1.dexterity
    &&& c2.intelligence == c1.intelligence
    &&& c2.mind == c1.mind
    &&& c2.strength == c1.strength
    &&& c2.vigor == c1.vigor
    &&& c2.vitality == c1.vitality
    &&& c2.bodywear == c1.bodywear
    &&& c2.footwear == c1.footwear
    &&& c2.handwear == c1.handwear
    &&& c2.headwear == c1.headwear
    &&& c2.legwear == c1.legwear
    &&& c2.weapon == c1.weapon
}

/// The two states have the same party and member structure, the same
/// inventories, and pairwise identity-equal members.
pub open spec fn same_skeleton(a: Seq<PartyView>, b: Seq<PartyView>) -> bool {
    &&& a.len() == b.len()
    &&& forall|p: int|
        0 <= p < a.len() ==> {
            &&& (#[trigger] b[p]).members.len() == a[p].members.len()
            &&& b[p].inventory == a[p].inventory
            &&& forall|m: int|
                0 <= m < a[p].members.len() ==> same_identity(
                    a[p].members[m],
                    #[trigger] b[p].members[m],
                )
        }
}

proof fn lemma_same_skeleton_refl(a: Seq<PartyView>)
    ensures
        same_skeleton(a, a),
{
}

proof fn lemma_same_skeleton_trans(a: Seq<PartyView>, b: Seq<PartyView>, c: Seq<PartyView>)
    requires
        same_skeleton(a, b),
        same_skeleton(b, c),
    ensures
        same_skeleton(a, c),
{
}

proof fn lemma_ids_wf_same_identity(c1: CombatantView, c2: CombatantView, store: ContentStoreView)
    requires
        same_identity(c1, c2),
        combatant_ids_wf(c1, store),
    ensures
        combatant_ids_wf(c2, store),
{
}

proof fn lemma_state_ids_wf_skeleton(
    a: Seq<PartyView>,
    b: Seq<PartyView>,
    store: ContentStoreView,
)
    requires
        same_skeleton(a, b),
        state_ids_wf(a, store),
    ensures
        state_ids_wf(b, store),
{
    assert forall|p: int, m: int|
        0 <= p < b.len() && 0 <= m < b[p].members.len() implies combatant_ids_wf(
        #[trigger] b[p].members[m],
        store,
    ) by {
        lemma_ids_wf_same_identity(a[p].members[m], b[p].members[m], store);
    }
}

proof fn lemma_sub_effect_identity(
    source: Option<CombatantView>,
    c: CombatantView,
    store: ContentStoreView,
    sub_effect: SubEffect,
)
    ensures
        same_identity(c, sub_effect_applied(source, c, store, sub_effect)),
{
}

proof fn lemma_with_member_skeleton(stv: Seq<PartyView>, t: Target, c: CombatantView)
    requires
        target_in_bounds(stv, t),
        same_identity(member_at(stv, t), c),
    ensures
        same_skeleton(stv, with_member(stv, t, c)),
{
}

/// Every combatant's identifiers resolve in the store.
pub open spec fn state_ids_wf(stv: Seq<PartyView>, store: ContentStoreView) -> bool {
    forall|p: int, m: int|
        0 <= p < stv.len() && 0 <= m < stv[p].members.len() ==> combatant_ids_wf(
            #[trigger] stv[p].members[m],
            store,
        )
}

/// One sub-effect resolved against the pair `(source, target)`: the source
/// reference is dropped when the two coincide.
pub open spec fn handle_one(
    stv: Seq<PartyView>,
    store: ContentStoreView,
    source: Target,
    target: Target,
    sub_effect: SubEffect,
) -> Seq<PartyView> {
    let src_opt = if source == target {
        None
    } else {
        Some(member_at(stv, source))
    };
    with_member(
        stv,
        target,
        sub_effect_applied(src_opt, member_at(stv, target), store, sub_effect),
    )
}

/// A list of sub-effects applied to `target` in order, re-resolving the
/// source against the evolving state at every step.
pub open spec fn sub_effects_applied(
    stv: Seq<PartyView>,
    store: ContentStoreView,
    source: Target,
    target: Target,
    sub_effects: Seq<SubEffect>,
) -> Seq<PartyView>
    decreases sub_effects.len(),
{
    if sub_effects.len() == 0 {
        stv
    } else {
        handle_one(
            sub_effects_applied(stv, store, source, target, sub_effects.drop_last()),
            store,
            source,
            target,
            sub_effects.last(),
        )
    }
}

proof fn lemma_handle_one_skeleton(
    stv: Seq<PartyView>,
    store: ContentStoreView,
    source: Target,
    target: Target,
    sub_effect: SubEffect,
)
    requires
        target_in_bounds(stv, target),
    ensures
        same_skeleton(stv, handle_one(stv, store, source, target, sub_effect)),
{
    let src_opt = if source == target {
        None
    } else {
        Some(member_at(stv, source))
    };
    lemma_sub_effect_identity(src_opt, member_at(stv, target), store, sub_effect);
    lemma_with_member_skeleton(
        stv,
        target,
        sub_effect_applied(src_opt, member_at(stv, target), store, sub_effect),
    );
}

proof fn lemma_sub_effects_skeleton(
    stv: Seq<PartyView>,
    store: ContentStoreView,
    source: Target,
    target: Target,
    sub_effects: Seq<SubEffect>,
)
    requires
        target_in_bounds(stv, target),
    ensures
        same_skeleton(stv, sub_effects_applied(stv, store, source, target, sub_effects)),
    decreases sub_effects.len(),
{
    if sub_effects.len() == 0 {
        lemma_same_skeleton_refl(stv);
    } else {
        let prev = sub_effects_applied(stv, store, source, target, sub_effects.drop_last());
        lemma_sub_effects_skeleton(stv, store, source, target, sub_effects.drop_last());
        lemma_handle_one_skeleton(prev, store, source, target, sub_effects.last());
        lemma_same_skeleton_trans(
            stv,
            prev,
            handle_one(prev, store, source, target, sub_effects.last()),
        );
    }
}

/// Applies every sub-effect of one effect list to `target`, in order.
fn apply_sub_effects(
    state: &mut CombatState,
    store: &ContentStore,
    source: Target,
    target: Target,
    sub_effects: &Vec<SubEffect>,
)
    requires
        target_in_bounds(old(state)@, target),
        target_in_bounds(old(state)@, source),
        state_ids_wf(old(state)@, store@),
        forall|i: int|
            0 <= i < sub_effects@.len() ==> sub_effect_aspect_implemented(
                #[trigger] sub_effects@[i],
            ),
    ensures
        final(state)@ == sub_effects_applied(old(state)@, store@, source, target, sub_effects@),
{
    let ghost stv0 = state@;
    let mut i: usize = 0;
    #[verifier::loop_isolation(false)]
    while i < sub_effects.len()
        invariant
            i <= sub_effects@.len(),
            state@ == sub_effects_applied(stv0, store@, source, target, sub_effects@.subrange(0, i as int)),
            same_skeleton(stv0, state@),
        decreases sub_effects@.len() - i,
    {
        let ghost prev = state@;
        let sub_effect = sub_effects[i];
        proof {
            lemma_state_ids_wf_skeleton(stv0, prev, store@);
        }
        let src_opt = if source.party_index == target.party_index && source.member_index
            == target.member_index {
            None
        } else {
            Some(source)
        };
        handle_sub_effect(state, store, src_opt, target, sub_effect);
        proof {
            assert(sub_effects@.subrange(0, i as int + 1).drop_last() =~= sub_effects@.subrange(
                0,
                i as int,
            ));
            assert(sub_effects@.subrange(0, i as int + 1).last() == sub_effects@[i as int]);
            assert(state@ == handle_one(prev, store@, source, target, sub_effect));
            lemma_handle_one_skeleton(prev, store@, source, target, sub_effect);
            lemma_same_skeleton_trans(stv0, prev, state@);
        }
        i = i + 1;
    }
    proof {
        assert(sub_effects@.subrange(0, sub_effects@.len() as int) =~= sub_effects@);
    }
}

/// The first `upto` damage-over-time instances of `c` reapplied in order:
/// each deals its stored damage value, then its own lifetime is ticked.
/// Expired instances are never removed; they keep applying on every tick.
pub open spec fn dots_processed(c: CombatantView, store: ContentStoreView, upto: int) -> CombatantView
    decreases upto,
{
    if upto <= 0 {
        c
    } else {
        let prev = dots_processed(c, store, upto - 1);
        let d = prev.dots[upto - 1];
        let after = damaged(prev, store, d.aspect, d.damage_value as int);
        CombatantView {
            dots: after.dots.update(upto - 1, DOT { lifetime: lifetime_ticked(d.lifetime), ..d }),
            ..after
        }
    }
}

proof fn lemma_dots_processed_facts(c: CombatantView, store: ContentStoreView, upto: int)
    requires
        0 <= upto <= c.dots.len(),
    ensures
        same_identity(c, dots_processed(c, store, upto)),
        dots_processed(c, store, upto).dots.len() == c.dots.len(),
        dots_processed(c, store, upto).fatigue == c.fatigue,
        forall|k: int|
            upto <= k < c.dots.len() ==> dots_processed(c, store, upto).dots[k] == c.dots[k],
    decreases upto,
{
    if upto > 0 {
        lemma_dots_processed_facts(c, store, upto - 1);
    }
}

/// Every modifier's lifetime ticked once; values and order are kept.
pub open spec fn modifiers_ticked(mods: Seq<Modifier>) -> Seq<Modifier> {
    mods.map_values(|m: Modifier| Modifier { lifetime: lifetime_ticked(m.lifetime), ..m })
}

/// One tick of a single combatant: every damage-over-time instance deals
/// its stored damage and ages by one, then every attribute modifier ages by
/// one.
pub open spec fn combatant_ticked(c: CombatantView, store: ContentStoreView) -> CombatantView {
    let d = dots_processed(c, store, c.dots.len() as int);
    CombatantView {
        agility_modifiers: modifiers_ticked(d.agility_modifiers),
        dexterity_modifiers: modifiers_ticked(d.dexterity_modifiers),
        intelligence_modifiers: modifiers_ticked(d.intelligence_modifiers),
        mind_modifiers: modifiers_ticked(d.mind_modifiers),
        strength_modifiers: modifiers_ticked(d.strength_modifiers),
        vigor_modifiers: modifiers_ticked(d.vigor_modifiers),
        vitality_modifiers: modifiers_ticked(d.vitality_modifiers),
        ..d
    }
}

/// One tick of the whole state: every combatant of every party ticked.
pub open spec fn state_ticked(stv: Seq<PartyView>, store: ContentStoreView) -> Seq<PartyView> {
    Seq::new(
        stv.len(),
        |p: int|
            PartyView {
                members: Seq::new(
                    stv[p].members.len(),
                    |m: int| combatant_ticked(stv[p].members[m], store),
                ),
                ..stv[p]
            },
    )
}

fn tick_modifier_list(mods: &mut Vec<Modifier>)
    ensures
        final(mods)@ == modifiers_ticked(old(mods)@),
{
    let mut i: usize = 0;
    #[verifier::loop_isolation(false)]
    while i < mods.len()
        invariant
            i <= mods@.len(),
            mods@.len() == old(mods)@.len(),
            forall|k: int| 0 <= k < i ==> mods@[k] == modifiers_ticked(old(mods)@)[k],
            forall|k: int| i <= k < mods@.len() ==> mods@[k] == old(mods)@[k],
        decreases mods@.len() - i,
    {
        let m = mods[i];
        let mut lifetime = m.lifetime;
        lifetime.tick();
        mods[i] = Modifier { expression: m.expression, lifetime };
        i = i + 1;
    }
    proof {
        assert(final(mods)@ =~= modifiers_ticked(old(mods)@));
    }
}

fn tick_combatant(c: &mut Combatant, store: &ContentStore)
    requires
        combatant_ids_wf(old(c)@, store@),
    ensures
        final(c)@ == combatant_ticked(old(c)@, store@),
{
    let ghost c0 = old(c)@;
    let mut i: usize = 0;
    #[verifier::loop_isolation(false)]
    while i < c.dots.len()
        invariant
            i <= c0.dots.len(),
            c@ == dots_processed(c0, store@, i as int),
            c@.dots.len() == c0.dots.len(),
        decreases c0.dots.len() - i,
    {
        let ghost prev = c@;
        let d = c.dots[i];
        proof {
            lemma_dots_processed_facts(c0, store@, i as int);
            lemma_ids_wf_same_identity(c0, c@, store@);
        }
        process_damage(c, store, d.aspect, d.damage_value);
        let mut lifetime = d.lifetime;
        lifetime.tick();
        c.dots[i] = DOT { aspect: d.aspect, damage_value: d.damage_value, lifetime };
        proof {
            assert(c@ =~= dots_processed(c0, store@, i as int + 1));
            lemma_dots_processed_facts(c0, store@, i as int + 1);
        }
        i = i + 1;
    }
    tick_modifier_list(&mut c.agility_modifiers);
    tick_modifier_list(&mut c.dexterity_modifiers);
    tick_modifier_list(&mut c.intelligence_modifiers);
    tick_modifier_list(&mut c.mind_modifiers);
    tick_modifier_list(&mut c.strength_modifiers);
    tick_modifier_list(&mut c.vigor_modifiers);
    tick_modifier_list(&mut c.vitality_modifiers);
    proof {
        assert(final(c)@ =~= combatant_ticked(c0, store@));
    }
}

proof fn lemma_combatant_ticked_identity(c: CombatantView, store: ContentStoreView)
    ensures
        same_identity(c, combatant_ticked(c, store)),
{
    lemma_dots_processed_facts(c, store, c.dots.len() as int);
}

proof fn lemma_state_ticked_skeleton(stv: Seq<PartyView>, store: ContentStoreView)
    ensures
        same_skeleton(stv, state_ticked(stv, store)),
{
    let t = state_ticked(stv, store);
    assert forall|p: int| 0 <= p < stv.len() implies {
        &&& (#[trigger] t[p]).members.len() == stv[p].members.len()
        &&& t[p].inventory == stv[p].inventory
        &&& forall|m: int|
            0 <= m < stv[p].members.len() ==> same_identity(
                stv[p].members[m],
                #[trigger] t[p].members[m],
            )
    } by {
        assert forall|m: int|
            0 <= m < stv[p].members.len() implies same_identity(
            stv[p].members[m],
            #[trigger] t[p].members[m],
        ) by {
            lemma_combatant_ticked_identity(stv[p].members[m], store);
        }
    }
}

/// One tick over every combatant of every party, in index order.
fn tick_state(state: &mut CombatState, store: &ContentStore)
    requires
        state_ids_wf(old(state)@, store@),
    ensures
        final(state)@ == state_ticked(old(state)@, store@),
{
    let ghost stv0 = old(state)@;
    let mut p: usize = 0;
    #[verifier::loop_isolation(false)]
    while p < state.parties.len()
        invariant
            p <= stv0.len(),
            state@.len() == stv0.len(),
            forall|q: int| 0 <= q < p ==> state@[q] == state_ticked(stv0, store@)[q],
            forall|q: int| p <= q < stv0.len() ==> state@[q] == stv0[q],
        decreases stv0.len() - p,
    {
        let mut m: usize = 0;
        let member_count = state.parties[p].members.len();
        #[verifier::loop_isolation(false)]
        while m < member_count
            invariant
                m <= member_count,
                member_count == stv0[p as int].members.len(),
                state@.len() == stv0.len(),
                forall|q: int| 0 <= q < p ==> state@[q] == state_ticked(stv0, store@)[q],
                forall|q: int| p < q < stv0.len() ==> state@[q] == stv0[q],
                state@[p as int].inventory == stv0[p as int].inventory,
                state@[p as int].members.len() == stv0[p as int].members.len(),
                forall|k: int|
                    0 <= k < m ==> state@[p as int].members[k] == combatant_ticked(
                        stv0[p as int].members[k],
                        store@,
                    ),
                forall|k: int|
                    m <= k < stv0[p as int].members.len() ==> state@[p as int].members[k] == stv0[
                        p as int
                    ].members[k],
            decreases member_count - m,
        {
            let ghost prev = state@;
            proof {
                assert forall|q: int| 0 <= q < stv0.len() implies prev[q] == state.parties@[q]@ by {
                }
                assert forall|k: int|
                    0 <= k < stv0[p as int].members.len() implies prev[p as int].members[k]
                    == state.parties@[p as int].members@[k]@ by {
                }
                assert(combatant_ids_wf(prev[p as int].members[m as int], store@));
            }
            let member = &mut state.parties[p].members[m];
            tick_combatant(member, store);
            proof {
                assert forall|q: int| 0 <= q < stv0.len() implies state@[q] == state.parties@[q]@ by {
                }
                assert forall|k: int|
                    0 <= k < stv0[p as int].members.len() implies state@[p as int].members[k]
                    == state.parties@[p as int].members@[k]@ by {
                }
                assert forall|q: int| 0 <= q < stv0.len() && q != p implies state@[q] == prev[q] by {
                    assert(state@[q] =~= prev[q]);
                }
                assert forall|k: int|
                    0 <= k < stv0[p as int].members.len() && k != m implies state@[
                        p as int
                    ].members[k] == prev[p as int].members[k] by {
                }
                assert(state@[p as int].members[m as int] == combatant_ticked(
                    prev[p as int].members[m as int],
                    store@,
                ));
                assert(state@[p as int].inventory == prev[p as int].inventory);
                assert forall|q: int| 0 <= q < p implies state@[q] == state_ticked(
                    stv0,
                    store@,
                )[q] by {
                    assert(q != p as int);
                    assert(state@[q] == prev[q]);
                    assert(prev[q] == state_ticked(stv0, store@)[q]);
                }
                assert forall|k: int| 0 <= k < m + 1 implies state@[p as int].members[k]
                    == combatant_ticked(stv0[p as int].members[k], store@) by {
                    if k < m {
                        assert(state@[p as int].members[k] == prev[p as int].members[k]);
                        assert(prev[p as int].members[k] == combatant_ticked(
                            stv0[p as int].members[k],
                            store@,
                        ));
                    } else {
                        assert(k == m as int);
                        assert(prev[p as int].members[k] == stv0[p as int].members[k]);
                    }
                }
            }
            m = m + 1;
        }
        p = p + 1;
    }
    proof {
        assert(final(state)@ =~~= state_ticked(stv0, store@));
    }
}

/// One attack resolved against a single target: the sub-effects of the
/// attacker's equipped weapon, or — when the relevant combatant is unarmed —
/// a single implicit physical hit with multiplier one. When the source
/// coincides with the target, the target's own weapon decides (the
/// self-sourced unarmed fallback).
pub open spec fn attack_target_applied(
    stv: Seq<PartyView>,
    store: ContentStoreView,
    source: Target,
    target: Target,
) -> Seq<PartyView> {
    let weapon = if source == target {
        member_at(stv, target).weapon
    } else {
        member_at(stv, source).weapon
    };
    match weapon {
        None => handle_one(
            stv,
            store,
            source,
            target,
            SubEffect::Damage { aspect: Aspect::Physical, multiplier: 1 },
        ),
        Some(w) => sub_effects_applied(
            stv,
            store,
            source,
            target,
            store.weapons[w.0 as int].effect.sub_effects,
        ),
    }
}

/// An attack applied to a list of targets in order.
pub open spec fn attack_applied(
    stv: Seq<PartyView>,
    store: ContentStoreView,
    source: Target,
    targets: Seq<Target>,
) -> Seq<PartyView>
    decreases targets.len(),
{
    if targets.len() == 0 {
        stv
    } else {
        attack_target_applied(
            attack_applied(stv, store, source, targets.drop_last()),
            store,
            source,
            targets.last(),
        )
    }
}

/// One fixed effect list (of a consumable or a skill) applied to a list of
/// targets in order.
pub open spec fn effect_list_applied(
    stv: Seq<PartyView>,
    store: ContentStoreView,
    source: Target,
    targets: Seq<Target>,
    sub_effects: Seq<SubEffect>,
) -> Seq<PartyView>
    decreases targets.len(),
{
    if targets.len() == 0 {
        stv
    } else {
        sub_effects_applied(
            effect_list_applied(stv, store, source, targets.drop_last(), sub_effects),
            store,
            source,
            targets.last(),
            sub_effects,
        )
    }
}

/// The state after the action itself, before the tick.
pub open spec fn event_applied(
    stv: Seq<PartyView>,
    store: ContentStoreView,
    event: CombatEvent,
) -> Seq<PartyView> {
    match event {
        CombatEvent::AttackEvent { source, targets } => attack_applied(
            stv,
            store,
            source,
            targets@,
        ),
        CombatEvent::ConsumableEvent { source, consumable, targets } => effect_list_applied(
            stv,
            store,
            source,
            targets@,
            store.consumables[consumable.0 as int].effect.sub_effects,
        ),
        CombatEvent::SkillEvent { source, skill, targets } => effect_list_applied(
            stv,
            store,
            source,
            targets@,
            store.skills[skill.0 as int].effect.sub_effects,
        ),
        CombatEvent::SkipEvent => stv,
    }
}

/// The full result of processing one event: the action applied, then one
/// tick over every combatant.
pub open spec fn event_processed(
    stv: Seq<PartyView>,
    store: ContentStoreView,
    event: CombatEvent,
) -> Seq<PartyView> {
    state_ticked(event_applied(stv, store, event), store)
}

/// The event's locators resolve in `stv` and its identifiers resolve in
/// `store`, stated over the event's mathematical value so that any two
/// events with the same value agree on it.
pub open spec fn all_targets_in_bounds(targets: Seq<Target>, stv: Seq<PartyView>) -> bool {
    forall|i: int| 0 <= i < targets.len() ==> target_in_bounds(stv, #[trigger] targets[i])
}

pub open spec fn event_view_wf(
    ev: CombatEventView,
    stv: Seq<PartyView>,
    store: ContentStoreView,
) -> bool {
    match ev {
        CombatEventView::Attack { source, targets } => target_in_bounds(stv, source)
            && all_targets_in_bounds(targets, stv),
        CombatEventView::Consumable { source, consumable, targets } => target_in_bounds(
            stv,
            source,
        ) && all_targets_in_bounds(targets, stv) && consumable.0 < store.consumables.len(),
        CombatEventView::Skill { source, skill, targets } => target_in_bounds(stv, source)
            && all_targets_in_bounds(targets, stv) && skill.0 < store.skills.len(),
        CombatEventView::Skip => true,
    }
}

/// The event's locators resolve in `stv` and its identifiers resolve in
/// `store`.
pub open spec fn event_wf(event: CombatEvent, stv: Seq<PartyView>, store: ContentStoreView) -> bool {
    event_view_wf(event@, stv, store)
}

proof fn lemma_attack_target_skeleton(
    stv: Seq<PartyView>,
    store: ContentStoreView,
    source: Target,
    target: Target,
)
    requires
        target_in_bounds(stv, source),
        target_in_bounds(stv, target),
    ensures
        same_skeleton(stv, attack_target_applied(stv, store, source, target)),
{
    let weapon = if source == target {
        member_at(stv, target).weapon
    } else {
        member_at(stv, source).weapon
    };
    match weapon {
        None => {
            lemma_handle_one_skeleton(
                stv,
                store,
                source,
                target,
                SubEffect::Damage { aspect: Aspect::Physical, multiplier: 1 },
            );
        },
        Some(w) => {
            lemma_sub_effects_skeleton(
                stv,
                store,
                source,
                target,
                store.weapons[w.0 as int].effect.sub_effects,
            );
        },
    }
}

/// Resolves one attack against `target`, reading the deciding weapon from
/// the source (or from the target itself when the two coincide).
fn attack_one(state: &mut CombatState, store: &ContentStore, source: Target, target: Target)
    requires
        target_in_bounds(old(state)@, source),
        target_in_bounds(old(state)@, target),
        state_ids_wf(old(state)@, store@),
        store_wf(store@),
    ensures
        final(state)@ == attack_target_applied(old(state)@, store@, source, target),
{
    let source_eq = source.party_index == target.party_index && source.member_index
        == target.member_index;
    let weapon = if source_eq {
        state.parties[target.party_index].members[target.member_index].weapon
    } else {
        state.parties[source.party_index].members[source.member_index].weapon
    };
    proof {
        assert(member_at(state@, target) == state.parties@[target.party_index as int].members@[
            target.member_index as int
        ]@);
        assert(member_at(state@, source) == state.parties@[source.party_index as int].members@[
            source.member_index as int
        ]@);
    }
    match weapon {
        None => {
            let src_opt = if source_eq {
                None
            } else {
                Some(source)
            };
            handle_sub_effect(
                state,
                store,
                src_opt,
                target,
                SubEffect::Damage { aspect: Aspect::Physical, multiplier: 1 },
            );
        },
        Some(w) => {
            let weapon_def = store.weapon(w);
            proof {
                assert(weapon_def.effect.sub_effects@ == store@.weapons[w.0 as int].effect.sub_effects);
                assert(effect_aspects_implemented(store@.weapons[w.0 as int].effect));
            }
            apply_sub_effects(state, store, source, target, &weapon_def.effect.sub_effects);
        },
    }
}

impl CombatState {
    /// Applies one combat event: resolves its effect list against every
    /// listed target in order, then performs one tick over every combatant
    /// of every party. A skip event only ticks.
    pub fn process_event(&mut self, store: &ContentStore, combat_event: &CombatEvent)
        requires
            state_ids_wf(old(self)@, store@),
            store_wf(store@),
            event_wf(*combat_event, old(self)@, store@),
        ensures
            final(self)@ == event_processed(old(self)@, store@, *combat_event),
    {
        let ghost stv0 = self@;
        match combat_event {
            CombatEvent::AttackEvent { source, targets } => {
                proof {
                    assert(combat_event@ == (CombatEventView::Attack {
                        source: *source,
                        targets: targets@,
                    }));
                    assert(event_view_wf(
                        CombatEventView::Attack { source: *source, targets: targets@ },
                        stv0,
                        store@,
                    ));
                    assert(target_in_bounds(stv0, *source));
                    assert(forall|i: int|
                        0 <= i < targets@.len() ==> target_in_bounds(
                            stv0,
                            #[trigger] targets@[i],
                        ));
                }
                let mut ti: usize = 0;
                #[verifier::loop_isolation(false)]
                while ti < targets.len()
                    invariant
                        ti <= targets@.len(),
                        self@ == attack_applied(stv0, store@, *source, targets@.subrange(0, ti as int)),
                        same_skeleton(stv0, self@),
                    decreases targets@.len() - ti,
                {
                    let ghost prev = self@;
                    let t = targets[ti];
                    proof {
                        lemma_state_ids_wf_skeleton(stv0, prev, store@);
                    }
                    attack_one(self, store, *source, t);
                    proof {
                        assert(targets@.subrange(0, ti as int + 1).drop_last() =~= targets@.subrange(
                            0,
                            ti as int,
                        ));
                        assert(targets@.subrange(0, ti as int + 1).last() == targets@[ti as int]);
                        lemma_attack_target_skeleton(prev, store@, *source, t);
                        lemma_same_skeleton_trans(stv0, prev, self@);
                    }
                    ti = ti + 1;
                }
                proof {
                    assert(targets@.subrange(0, targets@.len() as int) =~= targets@);
                }
            },
            CombatEvent::ConsumableEvent { source, consumable, targets } => {
                proof {
                    assert(combat_event@ == (CombatEventView::Consumable {
                        source: *source,
                        consumable: *consumable,
                        targets: targets@,
                    }));
                    assert(event_view_wf(combat_event@, stv0, store@));
                    assert(target_in_bounds(stv0, *source));
                    assert(consumable.0 < store@.consumables.len());
                    assert(forall|i: int|
                        0 <= i < targets@.len() ==> target_in_bounds(
                            stv0,
                            #[trigger] targets@[i],
                        ));
                }
                let consumable_def = store.consumable(*consumable);
                proof {
                    assert(consumable_def.effect.sub_effects@ == store@.consumables[
                        consumable.0 as int
                    ].effect.sub_effects);
                    assert(effect_aspects_implemented(store@.consumables[consumable.0 as int].effect));
                }
                let mut ti: usize = 0;
                #[verifier::loop_isolation(false)]
                while ti < targets.len()
                    invariant
                        ti <= targets@.len(),
                        self@ == effect_list_applied(
                            stv0,
                            store@,
                            *source,
                            targets@.subrange(0, ti as int),
                            consumable_def.effect.sub_effects@,
                        ),
                        same_skeleton(stv0, self@),
                    decreases targets@.len() - ti,
                {
                    let ghost prev = self@;
                    let t = targets[ti];
                    proof {
                        lemma_state_ids_wf_skeleton(stv0, prev, store@);
                    }
                    apply_sub_effects(self, store, *source, t, &consumable_def.effect.sub_effects);
                    proof {
                        assert(targets@.subrange(0, ti as int + 1).drop_last() =~= targets@.subrange(
                            0,
                            ti as int,
                        ));
                        assert(targets@.subrange(0, ti as int + 1).last() == targets@[ti as int]);
                        lemma_sub_effects_skeleton(
                            prev,
                            store@,
                            *source,
                            t,
                            consumable_def.effect.sub_effects@,
                        );
                        lemma_same_skeleton_trans(stv0, prev, self@);
                    }
                    ti = ti + 1;
                }
                proof {
                    assert(targets@.subrange(0, targets@.len() as int) =~= targets@);
                }
            },
            CombatEvent::SkillEvent { source, skill, targets } => {
                proof {
                    assert(combat_event@ == (CombatEventView::Skill {
                        source: *source,
                        skill: *skill,
                        targets: targets@,
                    }));
                    assert(event_view_wf(combat_event@, stv0, store@));
                    assert(target_in_bounds(stv0, *source));
                    assert(skill.0 < store@.skills.len());
                    assert(forall|i: int|
                        0 <= i < targets@.len() ==> target_in_bounds(
                            stv0,
                            #[trigger] targets@[i],
                        ));
                }
                let skill_def = store.skill(*skill);
                proof {
                    assert(skill_def.effect.sub_effects@ == store@.skills[skill.0 as int].effect.sub_effects);
                    assert(effect_aspects_implemented(store@.skills[skill.0 as int].effect));
                }
                let mut ti: usize = 0;
                #[verifier::loop_isolation(false)]
                while ti < targets.len()
                    invariant
                        ti <= targets@.len(),
                        self@ == effect_list_applied(
                            stv0,
                            store@,
                            *source,
                            targets@.subrange(0, ti as int),
                            skill_def.effect.sub_effects@,
                        ),
                        same_skeleton(stv0, self@),
                    decreases targets@.len() - ti,
                {
                    let ghost prev = self@;
                    let t = targets[ti];
                    proof {
                        lemma_state_ids_wf_skeleton(stv0, prev, store@);
                    }
                    apply_sub_effects(self, store, *source, t, &skill_def.effect.sub_effects);
                    proof {
                        assert(targets@.subrange(0, ti as int + 1).drop_last() =~= targets@.subrange(
                            0,
                            ti as int,
                        ));
                        assert(targets@.subrange(0, ti as int + 1).last() == targets@[ti as int]);
                        lemma_sub_effects_skeleton(
                            prev,
                            store@,
                            *source,
                            t,
                            skill_def.effect.sub_effects@,
                        );
                        lemma_same_skeleton_trans(stv0, prev, self@);
                    }
                    ti = ti + 1;
                }
                proof {
                    assert(targets@.subrange(0, targets@.len() as int) =~= targets@);
                }
            },
            CombatEvent::SkipEvent => (),
        }
        proof {
            assert(self@ == event_applied(stv0, store@, *combat_event));
            lemma_state_ids_wf_skeleton(stv0, self@, store@);
        }
        tick_state(self, store);
    }
}

proof fn lemma_attack_applied_skeleton(
    stv: Seq<PartyView>,
    store: ContentStoreView,
    source: Target,
    targets: Seq<Target>,
)
    requires
        target_in_bounds(stv, source),
        forall|i: int| 0 <= i < targets.len() ==> target_in_bounds(stv, #[trigger] targets[i]),
    ensures
        same_skeleton(stv, attack_applied(stv, store, source, targets)),
    decreases targets.len(),
{
    if targets.len() == 0 {
        lemma_same_skeleton_refl(stv);
    } else {
        let prev = attack_applied(stv, store, source, targets.drop_last());
        lemma_attack_applied_skeleton(stv, store, source, targets.drop_last());
        lemma_attack_target_skeleton(prev, store, source, targets.last());
        lemma_same_skeleton_trans(
            stv,
            prev,
            attack_target_applied(prev, store, source, targets.last()),
        );
    }
}

proof fn lemma_effect_list_applied_skeleton(
    stv: Seq<PartyView>,
    store: ContentStoreView,
    source: Target,
    targets: Seq<Target>,
    sub_effects: Seq<SubEffect>,
)
    requires
        forall|i: int| 0 <= i < targets.len() ==> target_in_bounds(stv, #[trigger] targets[i]),
    ensures
        same_skeleton(stv, effect_list_applied(stv, store, source, targets, sub_effects)),
    decreases targets.len(),
{
    if targets.len() == 0 {
        lemma_same_skeleton_refl(stv);
    } else {
        let prev = effect_list_applied(stv, store, source, targets.drop_last(), sub_effects);
        lemma_effect_list_applied_skeleton(stv, store, source, targets.drop_last(), sub_effects);
        lemma_sub_effects_skeleton(prev, store, source, targets.last(), sub_effects);
        lemma_same_skeleton_trans(
            stv,
            prev,
            sub_effects_applied(prev, store, source, targets.last(), sub_effects),
        );
    }
}

/// Processing any well-formed event keeps the party and member structure,
/// the inventories, and every combatant's identity data.
pub proof fn lemma_event_processed_skeleton(
    stv: Seq<PartyView>,
    store: ContentStoreView,
    event: CombatEvent,
)
    requires
        event_wf(event, stv, store),
    ensures
        same_skeleton(stv, event_processed(stv, store, event)),
{
    let applied = event_applied(stv, store, event);
    match event {
        CombatEvent::AttackEvent { source, targets } => {
            assert(event@ == (CombatEventView::Attack { source, targets: targets@ }));
            assert(event_view_wf(event@, stv, store));
            lemma_attack_applied_skeleton(stv, store, source, targets@);
        },
        CombatEvent::ConsumableEvent { source, consumable, targets } => {
            assert(event@ == (CombatEventView::Consumable {
                source,
                consumable,
                targets: targets@,
            }));
            assert(event_view_wf(event@, stv, store));
            lemma_effect_list_applied_skeleton(
                stv,
                store,
                source,
                targets@,
                store.consumables[consumable.0 as int].effect.sub_effects,
            );
        },
        CombatEvent::SkillEvent { source, skill, targets } => {
            assert(event@ == (CombatEventView::Skill { source, skill, targets: targets@ }));
            assert(event_view_wf(event@, stv, store));
            lemma_effect_list_applied_skeleton(
                stv,
                store,
                source,
                targets@,
                store.skills[skill.0 as int].effect.sub_effects,
            );
        },
        CombatEvent::SkipEvent => {
            lemma_same_skeleton_refl(stv);
        },
    }
    lemma_state_ticked_skeleton(applied, store);
    lemma_same_skeleton_trans(stv, applied, state_ticked(applied, store));
}

/// Identifier well-formedness survives event processing.
pub proof fn lemma_event_processed_ids_wf(
    stv: Seq<PartyView>,
    store: ContentStoreView,
    event: CombatEvent,
)
    requires
        event_wf(event, stv, store),
        state_ids_wf(stv, store),
    ensures
        state_ids_wf(event_processed(stv, store, event), store),
{
    lemma_event_processed_skeleton(stv, store, event);
    lemma_state_ids_wf_skeleton(stv, event_processed(stv, store, event), store);
}

proof fn lemma_relaxed_skeleton(stv: Seq<PartyView>)
    ensures
        same_skeleton(stv, relaxed(stv)),
{
    match pivot(stv) {
        Some(pt) => {
            let pc = member_at(stv, pt);
            let pf = pc.fatigue as int;
            let pa = effective_attribute(pc, Attribute::Agility);
            let r = relaxed(stv);
            assert forall|p: int| 0 <= p < stv.len() implies {
                &&& (#[trigger] r[p]).members.len() == stv[p].members.len()
                &&& r[p].inventory == stv[p].inventory
                &&& forall|m: int|
                    0 <= m < stv[p].members.len() ==> same_identity(
                        stv[p].members[m],
                        #[trigger] r[p].members[m],
                    )
            } by {
                assert forall|m: int| 0 <= m < stv[p].members.len() implies same_identity(
                    stv[p].members[m],
                    #[trigger] r[p].members[m],
                ) by {
                    lemma_relaxed_member_identity(stv[p].members[m], pf, pa);
                }
            }
        },
        None => {
            lemma_same_skeleton_refl(stv);
        },
    }
}

/// Selecting the next combatant only changes fatigue values: structure,
/// inventories and identity data are kept.
pub proof fn lemma_next_turn_skeleton(stv: Seq<PartyView>)
    requires
        lens_bounded(stv),
    ensures
        same_skeleton(stv, next_turn(stv).1),
{
    match first_ready(stv) {
        Some(t) => {
            lemma_first_ready_props(stv, spec_target_list(stv));
            lemma_target_list_characterizes(stv, t);
            lemma_with_member_skeleton(stv, t, engaged(member_at(stv, t)));
        },
        None => {
            let s1 = relaxed(stv);
            lemma_relaxed_skeleton(stv);
            match first_ready(s1) {
                Some(t) => {
                    lemma_first_ready_props(s1, spec_target_list(s1));
                    assert(lens_bounded(s1));
                    lemma_target_list_characterizes(s1, t);
                    lemma_with_member_skeleton(s1, t, engaged(member_at(s1, t)));
                    lemma_same_skeleton_trans(stv, s1, with_member(s1, t, engaged(member_at(s1, t))));
                },
                None => (),
            }
        },
    }
}

/// Identifier well-formedness survives scheduling.
pub proof fn lemma_next_turn_ids_wf(stv: Seq<PartyView>, store: ContentStoreView)
    requires
        lens_bounded(stv),
        state_ids_wf(stv, store),
    ensures
        state_ids_wf(next_turn(stv).1, store),
{
    lemma_next_turn_skeleton(stv);
    lemma_state_ids_wf_skeleton(stv, next_turn(stv).1, store);
}

/// Every member of the party resolves its identifiers in `store`.
pub open spec fn party_ids_wf(p: PartyView, store: ContentStoreView) -> bool {
    forall|m: int| 0 <= m < p.members.len() ==> combatant_ids_wf(#[trigger] p.members[m], store)
}

/// Whether every member of `party` resolves its identifiers in `store`.
pub fn check_party_ids(party: &Party, store: &ContentStore) -> (r: bool)
    ensures
        r == party_ids_wf(party@, store@),
{
    let mut i: usize = 0;
    #[verifier::loop_isolation(false)]
    while i < party.members.len()
        invariant
            i <= party@.members.len(),
            forall|k: int|
                0 <= k < i ==> combatant_ids_wf(#[trigger] party@.members[k], store@),
        decreases party@.members.len() - i,
    {
        proof {
            assert(party@.members[i as int] == party.members@[i as int]@);
        }
        if !party.members[i].check_ids(store) {
            return false;
        }
        i = i + 1;
    }
    true
}

impl CombatState {
    /// Whether `t` resolves inside this state.
    pub fn check_target(&self, t: Target) -> (r: bool)
        ensures
            r == target_in_bounds(self@, t),
    {
        t.party_index < self.parties.len() && t.member_index < self.parties[t.party_index].members.len()
    }

    /// Whether the event's locators resolve in this state and its content
    /// identifiers resolve in `store`.
    pub fn check_event(&self, store: &ContentStore, event: &CombatEvent) -> (r: bool)
        ensures
            r == event_wf(*event, self@, store@),
    {
        let (source, targets, id_ok) = match event {
            CombatEvent::AttackEvent { source, targets } => (source, targets, true),
            CombatEvent::ConsumableEvent { source, consumable, targets } => (
                source,
                targets,
                consumable.0 < store.consumables.len(),
            ),
            CombatEvent::SkillEvent { source, skill, targets } => (
                source,
                targets,
                skill.0 < store.skills.len(),
            ),
            CombatEvent::SkipEvent => {
                return true;
            },
        };
        if !id_ok {
            return false;
        }
        if !self.check_target(*source) {
            return false;
        }
        let mut i: usize = 0;
        #[verifier::loop_isolation(false)]
        while i < targets.len()
            invariant
                i <= targets@.len(),
                forall|k: int| 0 <= k < i ==> target_in_bounds(self@, #[trigger] targets@[k]),
            decreases targets@.len() - i,
        {
            if !self.check_target(targets[i]) {
                return false;
            }
            i = i + 1;
        }
        true
    }

    /// Whether the scheduler can make progress on this state: someone is
    /// ready, or some alive combatant has positive effective agility.
    pub fn check_schedulable(&self) -> (r: bool)
        ensures
            r == schedulable(self@),
    {
        match self.find_first_ready() {
            Some(_) => true,
            None => {
                let mut p: usize = 0;
                #[verifier::loop_isolation(false)]
                while p < self.parties.len()
                    invariant
                        p <= self@.len(),
                        forall|q: int, k: int|
                            0 <= q < p && 0 <= k < self@[q].members.len() ==> !(alive_of(
                                #[trigger] self@[q].members[k],
                            ) && effective_attribute(self@[q].members[k], Attribute::Agility) > 0),
                    decreases self@.len() - p,
                {
                    let mut m: usize = 0;
                    let member_count = self.parties[p].members.len();
                    #[verifier::loop_isolation(false)]
                    while m < member_count
                        invariant
                            m <= member_count,
                            member_count == self@[p as int].members.len(),
                            forall|k: int|
                                0 <= k < m ==> !(alive_of(#[trigger] self@[p as int].members[k])
                                    && effective_attribute(
                                    self@[p as int].members[k],
                                    Attribute::Agility,
                                ) > 0),
                        decreases member_count - m,
                    {
                        proof {
                            assert(self@[p as int].members[m as int] == self.parties@[p as int].members@[
                                m as int
                            ]@);
                        }
                        let member = &self.parties[p].members[m];
                        if member.alive() && member.attribute(Attribute::Agility) > 0 {
                            return true;
                        }
                        m = m + 1;
                    }
                    p = p + 1;
                }
                false
            },
        }
    }
}

/// A self-targeted attack resolves with no source reference: every
/// sub-effect is applied with the source dropped, so damage values are
/// computed against the target itself, and the deciding weapon is the
/// target's own — the unarmed physical fallback applies exactly when the
/// target carries no weapon.
pub proof fn lemma_self_target_attack(stv: Seq<PartyView>, store: ContentStoreView, t: Target)
    ensures
        forall|se: SubEffect| #[trigger]
            handle_one(stv, store, t, t, se) == with_member(
                stv,
                t,
                sub_effect_applied(None, member_at(stv, t), store, se),
            ),
        member_at(stv, t).weapon is None ==> attack_target_applied(stv, store, t, t)
            == with_member(
            stv,
            t,
            sub_effect_applied(
                None,
                member_at(stv, t),
                store,
                SubEffect::Damage { aspect: Aspect::Physical, multiplier: 1 },
            ),
        ),
        match member_at(stv, t).weapon {
            Some(w) => attack_target_applied(stv, store, t, t) == sub_effects_applied(
                stv,
                store,
                t,
                t,
                store.weapons[w.0 as int].effect.sub_effects,
            ),
            None => true,
        },
{
}

/// The targets of one party: `n` member locators in member order.
pub open spec fn party_targets(p: int, n: int) -> Seq<Target> {
    Seq::new(n as nat, |m: int| Target { party_index: p as usize, member_index: m as usize })
}

/// The targets of the first `p` parties, in party-then-member order.
pub open spec fn targets_up_to(stv: Seq<PartyView>, p: int) -> Seq<Target>
    decreases p,
{
    if p <= 0 {
        Seq::empty()
    } else {
        targets_up_to(stv, p - 1) + party_targets(p - 1, stv[p - 1].members.len() as int)
    }
}

/// Every combatant of every party, in party-then-member order.
pub open spec fn spec_target_list(stv: Seq<PartyView>) -> Seq<Target> {
    targets_up_to(stv, stv.len() as int)
}

/// Party and member counts fit the index type, as they do for every state
/// backed by real vectors.
pub open spec fn lens_bounded(stv: Seq<PartyView>) -> bool {
    &&& stv.len() <= usize::MAX
    &&& forall|q: int| 0 <= q < stv.len() ==> (#[trigger] stv[q]).members.len() <= usize::MAX
}

pub proof fn lemma_state_lens_bounded(state: CombatState)
    ensures
        lens_bounded(state@),
{
    assert(state.parties.len() == state@.len());
    assert forall|q: int| 0 <= q < state@.len() implies (#[trigger] state@[q]).members.len()
        <= usize::MAX by {
        assert(state@[q] == state.parties@[q]@);
        assert(state.parties@[q].members.len() == state.parties@[q].members@.len());
    }
}

proof fn lemma_targets_up_to_characterizes(stv: Seq<PartyView>, p: int, t: Target)
    requires
        0 <= p <= stv.len(),
        lens_bounded(stv),
    ensures
        targets_up_to(stv, p).contains(t) <==> (t.party_index < p && t.member_index < stv[
            t.party_index as int
        ].members.len()),
    decreases p,
{
    if p > 0 {
        lemma_targets_up_to_characterizes(stv, p - 1, t);
        let prefix = targets_up_to(stv, p - 1);
        let block = party_targets(p - 1, stv[p - 1].members.len() as int);
        assert forall|k: int| 0 <= k < (prefix + block).len() implies (prefix + block)[k]
            == if k < prefix.len() {
            prefix[k]
        } else {
            block[k - prefix.len()]
        } by {
        }
        if t.party_index < p && t.member_index < stv[t.party_index as int].members.len() {
            if t.party_index < p - 1 {
                let k = choose|k: int| 0 <= k < prefix.len() && prefix[k] == t;
                assert((prefix + block)[k] == t);
            } else {
                let k = prefix.len() + t.member_index;
                assert((prefix + block)[k as int] == t);
            }
        }
        if (prefix + block).contains(t) {
            let k = choose|k: int| 0 <= k < (prefix + block).len() && (prefix + block)[k] == t;
            if k < prefix.len() {
                assert(prefix.contains(t));
            } else {
                assert(block[k - prefix.len()] == t);
            }
        }
    }
}

/// A target resolves against `stv` exactly when the scheduler's target list
/// holds it.
pub proof fn lemma_target_list_characterizes(stv: Seq<PartyView>, t: Target)
    requires
        lens_bounded(stv),
    ensures
        spec_target_list(stv).contains(t) <==> target_in_bounds(stv, t),
{
    lemma_targets_up_to_characterizes(stv, stv.len() as int, t);
}

proof fn lemma_target_list_bounds(stv: Seq<PartyView>)
    requires
        lens_bounded(stv),
    ensures
        forall|k: int|
            0 <= k < spec_target_list(stv).len() ==> target_in_bounds(
                stv,
                #[trigger] spec_target_list(stv)[k],
            ),
{
    assert forall|k: int| 0 <= k < spec_target_list(stv).len() implies target_in_bounds(
        stv,
        #[trigger] spec_target_list(stv)[k],
    ) by {
        assert(spec_target_list(stv).contains(spec_target_list(stv)[k]));
        lemma_target_list_characterizes(stv, spec_target_list(stv)[k]);
    }
}

/// Two states with the same party and member counts list the same targets.
proof fn lemma_target_list_same_lengths(a: Seq<PartyView>, b: Seq<PartyView>, p: int)
    requires
        a.len() == b.len(),
        0 <= p <= a.len(),
        forall|q: int| 0 <= q < a.len() ==> (#[trigger] b[q]).members.len() == a[q].members.len(),
    ensures
        targets_up_to(a, p) == targets_up_to(b, p),
    decreases p,
{
    if p > 0 {
        lemma_target_list_same_lengths(a, b, p - 1);
    }
}

impl CombatState {
    /// Lists every combatant of every party, in party-then-member order.
    pub fn get_target_list(&self) -> (r: Vec<Target>)
        ensures
            r@ == spec_target_list(self@),
    {
        let mut target_list: Vec<Target> = Vec::new();
        let mut party_index: usize = 0;
        #[verifier::loop_isolation(false)]
        while party_index < self.parties.len()
            invariant
                party_index <= self.parties@.len(),
                target_list@ == targets_up_to(self@, party_index as int),
            decreases self.parties@.len() - party_index,
        {
            let mut member_index: usize = 0;
            let member_count = self.parties[party_index].members.len();
            proof {
                assert(self@[party_index as int].members.len() == member_count);
            }
            #[verifier::loop_isolation(false)]
            while member_index < member_count
                invariant
                    member_index <= member_count,
                    target_list@ == targets_up_to(self@, party_index as int) + party_targets(
                        party_index as int,
                        member_index as int,
                    ),
                decreases member_count - member_index,
            {
                target_list.push(Target { party_index, member_index });
                proof {
                    assert(target_list@ =~= targets_up_to(self@, party_index as int)
                        + party_targets(party_index as int, member_index as int + 1));
                }
                member_index = member_index + 1;
            }
            proof {
                assert(targets_up_to(self@, party_index as int + 1) == targets_up_to(
                    self@,
                    party_index as int,
                ) + party_targets(party_index as int, member_count as int));
            }
            party_index = party_index + 1;
        }
        target_list
    }
}

/// A combatant with its fatigue reset to the maximum representable value:
/// engaged, and not selectable again until something else resets it.
pub open spec fn engaged(c: CombatantView) -> CombatantView {
    CombatantView { fatigue: u64::MAX, ..c }
}

/// `c1` is strictly closer to readiness than `c2`: its fatigue-to-agility
/// ratio is smaller, compared by cross-multiplication so the comparison is
/// exact.
pub open spec fn ratio_lt(c1: CombatantView, c2: CombatantView) -> bool {
    c1.fatigue * effective_attribute(c2, Attribute::Agility) < c2.fatigue * effective_attribute(
        c1,
        Attribute::Agility,
    )
}

/// The first ready combatant of `ts` in list order.
pub open spec fn first_ready_in(stv: Seq<PartyView>, ts: Seq<Target>) -> Option<Target>
    decreases ts.len(),
{
    if ts.len() == 0 {
        None
    } else if ready_of(member_at(stv, ts.first())) {
        Some(ts.first())
    } else {
        first_ready_in(stv, ts.drop_first())
    }
}

/// The first ready combatant in party-then-member order — the stable
/// tie-break of the scheduler.
pub open spec fn first_ready(stv: Seq<PartyView>) -> Option<Target> {
    first_ready_in(stv, spec_target_list(stv))
}

/// A scan for the first alive combatant with the strictly smallest
/// fatigue-to-agility ratio, carrying the best candidate found so far.
pub open spec fn pivot_scan(stv: Seq<PartyView>, ts: Seq<Target>, best: Option<Target>) -> Option<
    Target,
>
    decreases ts.len(),
{
    if ts.len() == 0 {
        best
    } else {
        let t = ts.first();
        let c = member_at(stv, t);
        let next = if !alive_of(c) {
            best
        } else {
            match best {
                None => Some(t),
                Some(b) => if ratio_lt(c, member_at(stv, b)) {
                    Some(t)
                } else {
                    best
                },
            }
        };
        pivot_scan(stv, ts.drop_first(), next)
    }
}

/// The alive combatant with the minimal fatigue-to-agility ratio (the first
/// such, in index order).
pub open spec fn pivot(stv: Seq<PartyView>) -> Option<Target> {
    pivot_scan(stv, spec_target_list(stv), None)
}

/// How much fatigue one relaxation pass removes from `c`, given the pivot's
/// fatigue `pf` and agility `pa`: the combatant's agility times the minimal
/// time-to-ready ratio, never more than its own fatigue.
pub open spec fn relax_delta(c: CombatantView, pf: int, pa: int) -> int {
    let d = (effective_attribute(c, Attribute::Agility) * pf) / pa;
    if d > c.fatigue {
        c.fatigue as int
    } else {
        d
    }
}

/// One relaxation step for a single combatant: dead combatants are left
/// alone.
pub open spec fn relaxed_member(c: CombatantView, pf: int, pa: int) -> CombatantView {
    if alive_of(c) {
        CombatantView { fatigue: (c.fatigue - relax_delta(c, pf, pa)) as u64, ..c }
    } else {
        c
    }
}

/// One relaxation pass over the whole state: every alive combatant's
/// fatigue drops by its share of the minimal time-to-ready ratio, so the
/// pivot reaches zero exactly.
pub open spec fn relaxed(stv: Seq<PartyView>) -> Seq<PartyView> {
    match pivot(stv) {
        Some(pt) => {
            let pc = member_at(stv, pt);
            let pf = pc.fatigue as int;
            let pa = effective_attribute(pc, Attribute::Agility);
            Seq::new(
                stv.len(),
                |p: int|
                    PartyView {
                        members: Seq::new(
                            stv[p].members.len(),
                            |m: int| relaxed_member(stv[p].members[m], pf, pa),
                        ),
                        ..stv[p]
                    },
            )
        },
        None => stv,
    }
}

/// The combatant the scheduler selects and the state it leaves behind: the
/// first ready combatant if one exists, otherwise the first combatant made
/// ready by one relaxation pass; either way the selected combatant's
/// fatigue is reset to the maximum representable value.
pub open spec fn next_turn(stv: Seq<PartyView>) -> (Target, Seq<PartyView>) {
    match first_ready(stv) {
        Some(t) => (t, with_member(stv, t, engaged(member_at(stv, t)))),
        None => {
            let s1 = relaxed(stv);
            match first_ready(s1) {
                Some(t) => (t, with_member(s1, t, engaged(member_at(s1, t)))),
                None => (Target { party_index: 0, member_index: 0 }, s1),
            }
        },
    }
}

/// The scheduler is a pure function of the state value: two equal states —
/// say, the authoritative server state and a client replica that applied
/// the identical event stream — yield the same pick and leave the same
/// state behind. The iteration order is fixed (party then member) and no
/// clock, randomness or address enters the decision; together with the
/// exact contract of [`CombatState::next_combatant`] this pins the first
/// pick of every replica.
pub proof fn lemma_next_turn_deterministic(s1: Seq<PartyView>, s2: Seq<PartyView>)
    requires
        s1 == s2,
    ensures
        next_turn(s1).0 == next_turn(s2).0,
        next_turn(s1).1 == next_turn(s2).1,
{
}

/// The scheduler can make progress: someone is already ready, or some alive
/// combatant has positive effective agility. Content data is expected to
/// guarantee positive agility; a state violating this is a configuration
/// error upstream.
pub open spec fn schedulable(stv: Seq<PartyView>) -> bool {
    ||| first_ready(stv) is Some
    ||| exists|p: int, m: int|
        0 <= p < stv.len() && 0 <= m < stv[p].members.len() && alive_of(
            #[trigger] stv[p].members[m],
        ) && effective_attribute(stv[p].members[m], Attribute::Agility) > 0
}

proof fn lemma_first_ready_none(stv: Seq<PartyView>, ts: Seq<Target>)
    ensures
        first_ready_in(stv, ts) is None ==> forall|j: int|
            0 <= j < ts.len() ==> !ready_of(member_at(stv, #[trigger] ts[j])),
    decreases ts.len(),
{
    if ts.len() > 0 {
        lemma_first_ready_none(stv, ts.drop_first());
        if first_ready_in(stv, ts) is None {
            assert forall|j: int| 0 <= j < ts.len() implies !ready_of(
                member_at(stv, #[trigger] ts[j]),
            ) by {
                if j > 0 {
                    assert(ts.drop_first()[j - 1] == ts[j]);
                } else {
                    assert(ts[0] == ts.first());
                }
            }
        }
    }
}

proof fn lemma_first_ready_some(stv: Seq<PartyView>, ts: Seq<Target>, j: int)
    requires
        0 <= j < ts.len(),
        ready_of(member_at(stv, ts[j])),
    ensures
        first_ready_in(stv, ts) is Some,
    decreases ts.len(),
{
    if !ready_of(member_at(stv, ts.first())) {
        assert(j > 0);
        assert(ts.drop_first()[j - 1] == ts[j]);
        lemma_first_ready_some(stv, ts.drop_first(), j - 1);
    }
}

proof fn lemma_first_ready_props(stv: Seq<PartyView>, ts: Seq<Target>)
    ensures
        match first_ready_in(stv, ts) {
            Some(t) => ts.contains(t) && ready_of(member_at(stv, t)),
            None => true,
        },
    decreases ts.len(),
{
    if ts.len() > 0 {
        lemma_first_ready_props(stv, ts.drop_first());
        match first_ready_in(stv, ts) {
            Some(t) => {
                if !ready_of(member_at(stv, ts.first())) {
                    let k = choose|k: int|
                        0 <= k < ts.drop_first().len() && ts.drop_first()[k] == t;
                    assert(ts[k + 1] == t);
                }
            },
            None => (),
        }
    }
}

proof fn lemma_pivot_scan_props(stv: Seq<PartyView>, ts: Seq<Target>, best: Option<Target>)
    requires
        forall|j: int| 0 <= j < ts.len() ==> target_in_bounds(stv, #[trigger] ts[j]),
        forall|j: int|
            0 <= j < ts.len() ==> (alive_of(member_at(stv, #[trigger] ts[j])) ==> member_at(
                stv,
                ts[j],
            ).fatigue > 0),
        match best {
            Some(b) => target_in_bounds(stv, b) && alive_of(member_at(stv, b)) && member_at(
                stv,
                b,
            ).fatigue > 0,
            None => true,
        },
    ensures
        match pivot_scan(stv, ts, best) {
            Some(r) => target_in_bounds(stv, r) && alive_of(member_at(stv, r)) && member_at(
                stv,
                r,
            ).fatigue > 0,
            None => true,
        },
        ({
            let has_pos = exists|j: int|
                0 <= j < ts.len() && alive_of(member_at(stv, #[trigger] ts[j]))
                    && effective_attribute(member_at(stv, ts[j]), Attribute::Agility) > 0;
            let best_pos = match best {
                Some(b) => effective_attribute(member_at(stv, b), Attribute::Agility) > 0,
                None => false,
            };
            (has_pos || best_pos) ==> match pivot_scan(stv, ts, best) {
                Some(r) => effective_attribute(member_at(stv, r), Attribute::Agility) > 0,
                None => false,
            }
        }),
    decreases ts.len(),
{
    broadcast use vstd::arithmetic::mul::lemma_mul_strictly_positive;
    broadcast use vstd::arithmetic::mul::lemma_mul_nonnegative;
    broadcast use vstd::arithmetic::mul::group_mul_basics;

    if ts.len() > 0 {
        let t = ts.first();
        let c = member_at(stv, t);
        let next = if !alive_of(c) {
            best
        } else {
            match best {
                None => Some(t),
                Some(b) => if ratio_lt(c, member_at(stv, b)) {
                    Some(t)
                } else {
                    best
                },
            }
        };
        assert forall|j: int| 0 <= j < ts.drop_first().len() implies target_in_bounds(
            stv,
            #[trigger] ts.drop_first()[j],
        ) && (alive_of(member_at(stv, ts.drop_first()[j])) ==> member_at(
            stv,
            ts.drop_first()[j],
        ).fatigue > 0) by {
            assert(ts.drop_first()[j] == ts[j + 1]);
        }
        lemma_pivot_scan_props(stv, ts.drop_first(), next);
        let has_pos = exists|j: int|
            0 <= j < ts.len() && alive_of(member_at(stv, #[trigger] ts[j]))
                && effective_attribute(member_at(stv, ts[j]), Attribute::Agility) > 0;
        let best_pos = match best {
            Some(b) => effective_attribute(member_at(stv, b), Attribute::Agility) > 0,
            None => false,
        };
        if has_pos || best_pos {
            let rec_has_pos = exists|j: int|
                0 <= j < ts.drop_first().len() && alive_of(
                    member_at(stv, #[trigger] ts.drop_first()[j]),
                ) && effective_attribute(
                    member_at(stv, ts.drop_first()[j]),
                    Attribute::Agility,
                ) > 0;
            let next_pos = match next {
                Some(b) => effective_attribute(member_at(stv, b), Attribute::Agility) > 0,
                None => false,
            };
            if best_pos {
                // a candidate can only displace a positive-agility best if
                // its own agility is positive
                let b = best->Some_0;
                let cb = member_at(stv, b);
                if alive_of(c) && ratio_lt(c, cb) {
                    if effective_attribute(c, Attribute::Agility) <= 0 {
                        lemma_effective_attribute_nonneg(c, Attribute::Agility);
                        assert(cb.fatigue * effective_attribute(c, Attribute::Agility) == 0);
                        lemma_effective_attribute_nonneg(cb, Attribute::Agility);
                        assert(c.fatigue * effective_attribute(cb, Attribute::Agility) >= 0);
                        assert(false);
                    }
                }
                assert(next_pos);
            } else {
                let j = choose|j: int|
                    0 <= j < ts.len() && alive_of(member_at(stv, #[trigger] ts[j]))
                        && effective_attribute(member_at(stv, ts[j]), Attribute::Agility) > 0;
                if j == 0 {
                    // the head is alive with positive agility: it becomes
                    // the candidate unless the incumbent already has
                    // positive agility
                    match best {
                        None => {
                            assert(next == Some(t));
                            assert(next_pos);
                        },
                        Some(b) => {
                            let cb = member_at(stv, b);
                            if effective_attribute(cb, Attribute::Agility) <= 0 {
                                lemma_effective_attribute_nonneg(cb, Attribute::Agility);
                                assert(c.fatigue * effective_attribute(cb, Attribute::Agility)
                                    == 0);
                                assert(cb.fatigue * effective_attribute(c, Attribute::Agility)
                                    > 0);
                                assert(ratio_lt(c, cb));
                                assert(next == Some(t));
                            }
                            assert(next_pos);
                        },
                    }
                } else {
                    assert(ts.drop_first()[j - 1] == ts[j]);
                    assert(rec_has_pos);
                }
            }
        }
    }
}

proof fn lemma_relaxed_member_identity(c: CombatantView, pf: int, pa: int)
    ensures
        same_identity(c, relaxed_member(c, pf, pa)),
        relaxed_member(c, pf, pa).hp == c.hp,
        relaxed_member(c, pf, pa).dots == c.dots,
        alive_of(relaxed_member(c, pf, pa)) == alive_of(c),
{
}

proof fn lemma_relaxed_facts(stv: Seq<PartyView>)
    requires
        match pivot(stv) {
            Some(pt) => target_in_bounds(stv, pt) && alive_of(member_at(stv, pt)) && member_at(
                stv,
                pt,
            ).fatigue > 0 && effective_attribute(member_at(stv, pt), Attribute::Agility) > 0,
            None => false,
        },
    ensures
        same_skeleton(stv, relaxed(stv)),
        ready_of(member_at(relaxed(stv), pivot(stv)->Some_0)),
{
    let pt = pivot(stv)->Some_0;
    let pc = member_at(stv, pt);
    let pf = pc.fatigue as int;
    let pa = effective_attribute(pc, Attribute::Agility);
    let r = relaxed(stv);
    assert forall|p: int| 0 <= p < stv.len() implies {
        &&& (#[trigger] r[p]).members.len() == stv[p].members.len()
        &&& r[p].inventory == stv[p].inventory
        &&& forall|m: int|
            0 <= m < stv[p].members.len() ==> same_identity(
                stv[p].members[m],
                #[trigger] r[p].members[m],
            )
    } by {
        assert forall|m: int| 0 <= m < stv[p].members.len() implies same_identity(
            stv[p].members[m],
            #[trigger] r[p].members[m],
        ) by {
            lemma_relaxed_member_identity(stv[p].members[m], pf, pa);
        }
    }
    vstd::arithmetic::div_mod::lemma_div_multiples_vanish(pf, pa);
    assert((pa * pf) / pa == pf);
    assert(effective_attribute(pc, Attribute::Agility) * pf == pa * pf);
    assert(relax_delta(pc, pf, pa) == pf);
    let rm = relaxed_member(pc, pf, pa);
    assert(rm.fatigue == 0);
    lemma_relaxed_member_identity(pc, pf, pa);
    assert(member_at(r, pt) == rm);
    assert(alive_of(rm) == alive_of(pc)) by {
        lemma_relaxed_member_identity(pc, pf, pa);
    }
}

/// Resets the fatigue of the combatant at `t` to the maximum representable
/// value, marking it engaged.
fn engage(state: &mut CombatState, t: Target)
    requires
        target_in_bounds(old(state)@, t),
    ensures
        final(state)@ == with_member(old(state)@, t, engaged(member_at(old(state)@, t))),
{
    state.parties[t.party_index].members[t.member_index].fatigue = u64::MAX;
    proof {
        assert(final(state)@ =~~= with_member(old(state)@, t, engaged(member_at(old(state)@, t))));
    }
}

impl CombatState {
    /// The first ready combatant in party-then-member order, if any.
    fn find_first_ready(&self) -> (r: Option<Target>)
        ensures
            r == first_ready(self@),
    {
        let target_list = self.get_target_list();
        let ghost full = spec_target_list(self@);
        proof {
            lemma_state_lens_bounded(*self);
            lemma_target_list_bounds(self@);
        }
        let mut i: usize = 0;
        proof {
            assert(full.skip(0) =~= full);
        }
        #[verifier::loop_isolation(false)]
        while i < target_list.len()
            invariant
                i <= full.len(),
                first_ready(self@) == first_ready_in(self@, full.skip(i as int)),
            decreases full.len() - i,
        {
            let t = target_list[i];
            proof {
                assert(full.skip(i as int).first() == full[i as int]);
                assert(member_at(self@, t) == self.parties@[t.party_index as int].members@[
                    t.member_index as int
                ]@);
            }
            let ready = self.parties[t.party_index].members[t.member_index].ready();
            if ready {
                return Some(t);
            }
            proof {
                assert(full.skip(i as int).drop_first() =~= full.skip(i as int + 1));
            }
            i = i + 1;
        }
        proof {
            assert(full.skip(full.len() as int) =~= Seq::<Target>::empty());
        }
        None
    }

    /// The first alive combatant with the minimal fatigue-to-agility ratio.
    fn find_pivot(&self) -> (r: Option<Target>)
        ensures
            r == pivot(self@),
    {
        let target_list = self.get_target_list();
        let ghost full = spec_target_list(self@);
        proof {
            lemma_state_lens_bounded(*self);
            lemma_target_list_bounds(self@);
        }
        let mut best: Option<Target> = None;
        let mut i: usize = 0;
        proof {
            assert(full.skip(0) =~= full);
        }
        #[verifier::loop_isolation(false)]
        while i < target_list.len()
            invariant
                i <= full.len(),
                pivot(self@) == pivot_scan(self@, full.skip(i as int), best),
                match best {
                    Some(b) => target_in_bounds(self@, b),
                    None => true,
                },
            decreases full.len() - i,
        {
            let t = target_list[i];
            proof {
                assert(full.skip(i as int).first() == full[i as int]);
                assert(member_at(self@, t) == self.parties@[t.party_index as int].members@[
                    t.member_index as int
                ]@);
            }
            let candidate = &self.parties[t.party_index].members[t.member_index];
            let next = if !candidate.alive() {
                best
            } else {
                match best {
                    None => Some(t),
                    Some(b) => {
                        proof {
                            assert(member_at(self@, b) == self.parties@[b.party_index as int].members@[
                                b.member_index as int
                            ]@);
                        }
                        let incumbent = &self.parties[b.party_index].members[b.member_index];
                        let candidate_agility = candidate.attribute(Attribute::Agility);
                        let incumbent_agility = incumbent.attribute(Attribute::Agility);
                        proof {
                            assert((candidate.fatigue as int) * (incumbent_agility as int)
                                <= u128::MAX && (incumbent.fatigue as int) * (
                            candidate_agility as int) <= u128::MAX) by (nonlinear_arith)
                                requires
                                    candidate.fatigue <= u64::MAX,
                                    incumbent_agility <= u64::MAX,
                                    incumbent.fatigue <= u64::MAX,
                                    candidate_agility <= u64::MAX,
                            {
                            }
                        }
                        if (candidate.fatigue as u128) * (incumbent_agility as u128) < (
                        incumbent.fatigue as u128) * (candidate_agility as u128) {
                            Some(t)
                        } else {
                            best
                        }
                    },
                }
            };
            proof {
                assert(full.skip(i as int).drop_first() =~= full.skip(i as int + 1));
            }
            best = next;
            i = i + 1;
        }
        proof {
            assert(full.skip(full.len() as int) =~= Seq::<Target>::empty());
        }
        best
    }
}

/// One relaxation pass: every alive combatant's fatigue is reduced by its
/// agility times the minimal fatigue-to-agility ratio (never below zero),
/// which drives the pivot combatant's fatigue to exactly zero.
fn relax(state: &mut CombatState)
    requires
        match pivot(old(state)@) {
            Some(pt) => target_in_bounds(old(state)@, pt) && effective_attribute(
                member_at(old(state)@, pt),
                Attribute::Agility,
            ) > 0,
            None => false,
        },
    ensures
        final(state)@ == relaxed(old(state)@),
{
    let pt = match state.find_pivot() {
        Some(t) => t,
        None => vstd::pervasive::unreached(),
    };
    proof {
        assert(member_at(state@, pt) == state.parties@[pt.party_index as int].members@[
            pt.member_index as int
        ]@);
    }
    let pivot_fatigue = state.parties[pt.party_index].members[pt.member_index].fatigue;
    let pivot_agility = state.parties[pt.party_index].members[pt.member_index].attribute(
        Attribute::Agility,
    );
    let ghost stv0 = state@;
    let ghost pf = pivot_fatigue as int;
    let ghost pa = pivot_agility as int;
    let mut p: usize = 0;
    #[verifier::loop_isolation(false)]
    while p < state.parties.len()
        invariant
            p <= stv0.len(),
            state@.len() == stv0.len(),
            forall|q: int|
                0 <= q < p ==> state@[q] == (PartyView {
                    members: Seq::new(
                        stv0[q].members.len(),
                        |m: int| relaxed_member(stv0[q].members[m], pf, pa),
                    ),
                    ..stv0[q]
                }),
            forall|q: int| p <= q < stv0.len() ==> state@[q] == stv0[q],
        decreases stv0.len() - p,
    {
        let mut m: usize = 0;
        let member_count = state.parties[p].members.len();
        #[verifier::loop_isolation(false)]
        while m < member_count
            invariant
                m <= member_count,
                member_count == stv0[p as int].members.len(),
                state@.len() == stv0.len(),
                forall|q: int|
                    0 <= q < p ==> state@[q] == (PartyView {
                        members: Seq::new(
                            stv0[q].members.len(),
                            |m2: int| relaxed_member(stv0[q].members[m2], pf, pa),
                        ),
                        ..stv0[q]
                    }),
                forall|q: int| p < q < stv0.len() ==> state@[q] == stv0[q],
                state@[p as int].inventory == stv0[p as int].inventory,
                state@[p as int].members.len() == stv0[p as int].members.len(),
                forall|k: int|
                    0 <= k < m ==> state@[p as int].members[k] == relaxed_member(
                        stv0[p as int].members[k],
                        pf,
                        pa,
                    ),
                forall|k: int|
                    m <= k < stv0[p as int].members.len() ==> state@[p as int].members[k] == stv0[
                        p as int
                    ].members[k],
            decreases member_count - m,
        {
            let ghost prev = state@;
            proof {
                assert forall|q: int| 0 <= q < stv0.len() implies prev[q] == state.parties@[q]@ by {
                }
                assert forall|k: int|
                    0 <= k < stv0[p as int].members.len() implies prev[p as int].members[k]
                    == state.parties@[p as int].members@[k]@ by {
                }
            }
            let is_alive = state.parties[p].members[m].alive();
            if is_alive {
                let member_agility = state.parties[p].members[m].attribute(Attribute::Agility);
                let member_fatigue = state.parties[p].members[m].fatigue;
                proof {
                    assert((member_agility as int) * (pivot_fatigue as int) <= u128::MAX)
                        by (nonlinear_arith)
                        requires
                            member_agility <= u64::MAX,
                            pivot_fatigue <= u64::MAX,
                    {
                    }
                }
                let product = (member_agility as u128) * (pivot_fatigue as u128);
                let share = product / (pivot_agility as u128);
                let delta = if share >= (member_fatigue as u128) {
                    member_fatigue
                } else {
                    share as u64
                };
                let member = &mut state.parties[p].members[m];
                member.fatigue = member.fatigue - delta;
            }
            proof {
                assert forall|q: int| 0 <= q < stv0.len() implies state@[q] == state.parties@[q]@ by {
                }
                assert forall|k: int|
                    0 <= k < stv0[p as int].members.len() implies state@[p as int].members[k]
                    == state.parties@[p as int].members@[k]@ by {
                }
                assert forall|q: int| 0 <= q < stv0.len() && q != p implies state@[q] == prev[q] by {
                    assert(state@[q] =~= prev[q]);
                }
                assert forall|k: int|
                    0 <= k < stv0[p as int].members.len() && k != m implies state@[
                        p as int
                    ].members[k] == prev[p as int].members[k] by {
                }
                assert(state@[p as int].members[m as int] =~= relaxed_member(
                    stv0[p as int].members[m as int],
                    pf,
                    pa,
                ));
                assert(state@[p as int].inventory == prev[p as int].inventory);
                assert forall|q: int| 0 <= q < p implies state@[q] == (PartyView {
                    members: Seq::new(
                        stv0[q].members.len(),
                        |m2: int| relaxed_member(stv0[q].members[m2], pf, pa),
                    ),
                    ..stv0[q]
                }) by {
                    assert(q != p as int);
                    assert(state@[q] == prev[q]);
                }
                assert forall|k: int| 0 <= k < m + 1 implies state@[p as int].members[k]
                    == relaxed_member(stv0[p as int].members[k], pf, pa) by {
                    if k < m {
                        assert(state@[p as int].members[k] == prev[p as int].members[k]);
                        assert(prev[p as int].members[k] == relaxed_member(
                            stv0[p as int].members[k],
                            pf,
                            pa,
                        ));
                    } else {
                        assert(k == m as int);
                    }
                }
            }
            m = m + 1;
        }
        p = p + 1;
    }
    proof {
        assert(final(state)@ =~~= relaxed(stv0));
    }
}

impl CombatState {
    /// Selects the next combatant to act. If someone is already ready, the
    /// first such combatant (in party-then-member order) is chosen;
    /// otherwise one fatigue relaxation pass makes at least one combatant
    /// ready, and the first of those is chosen. The chosen combatant's
    /// fatigue is reset to the maximum representable value so it is not
    /// selected again until something else resets it.
    pub fn next_combatant(&mut self) -> (r: Target)
        requires
            schedulable(old(self)@),
        ensures
            r == next_turn(old(self)@).0,
            final(self)@ == next_turn(old(self)@).1,
    {
        let first = self.find_first_ready();
        match first {
            Some(t) => {
                proof {
                    lemma_state_lens_bounded(*self);
                    lemma_first_ready_props(self@, spec_target_list(self@));
                    lemma_target_list_characterizes(self@, t);
                }
                engage(self, t);
                t
            },
            None => {
                let ghost pre = self@;
                let ghost full = spec_target_list(pre);
                proof {
                    lemma_state_lens_bounded(*self);
                    lemma_target_list_bounds(pre);
                    lemma_first_ready_none(pre, full);
                    assert forall|j: int|
                        0 <= j < full.len() implies (alive_of(member_at(pre, #[trigger] full[j]))
                        ==> member_at(pre, full[j]).fatigue > 0) by {
                        assert(!ready_of(member_at(pre, full[j])));
                    }
                    let (wp, wm) = choose|wp: int, wm: int|
                        0 <= wp < pre.len() && 0 <= wm < pre[wp].members.len() && alive_of(
                            #[trigger] pre[wp].members[wm],
                        ) && effective_attribute(pre[wp].members[wm], Attribute::Agility) > 0;
                    let w = Target { party_index: wp as usize, member_index: wm as usize };
                    assert(target_in_bounds(pre, w));
                    assert(member_at(pre, w) == pre[wp].members[wm]);
                    lemma_target_list_characterizes(pre, w);
                    let k = choose|k: int| 0 <= k < full.len() && full[k] == w;
                    assert(alive_of(member_at(pre, full[k])) && effective_attribute(
                        member_at(pre, full[k]),
                        Attribute::Agility,
                    ) > 0);
                    lemma_pivot_scan_props(pre, full, None);
                }
                relax(self);
                proof {
                    lemma_relaxed_facts(pre);
                    let pt = pivot(pre)->Some_0;
                    lemma_target_list_same_lengths(pre, self@, pre.len() as int);
                    assert(spec_target_list(self@) == full);
                    lemma_target_list_characterizes(pre, pt);
                    let k2 = choose|k2: int| 0 <= k2 < full.len() && full[k2] == pt;
                    assert(ready_of(member_at(self@, full[k2])));
                    lemma_first_ready_some(self@, full, k2);
                }
                let t2 = match self.find_first_ready() {
                    Some(t) => t,
                    None => vstd::pervasive::unreached(),
                };
                proof {
                    lemma_state_lens_bounded(*self);
                    lemma_first_ready_props(self@, spec_target_list(self@));
                    lemma_target_list_characterizes(self@, t2);
                }
                engage(self, t2);
                t2
            },
        }
    }
}

} // verus!
