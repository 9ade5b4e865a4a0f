//! Combat model behavior: attribute computation, damage, scheduling and
//! effect resolution.

use colosseum::aspect::Aspect;
use colosseum::attribute::Attribute;
use colosseum::combat_event::CombatEvent;
use colosseum::combat_state::process_damage;
use colosseum::combat_state::CombatState;
use colosseum::combatant::Combatant;
use colosseum::content::ContentStore;
use colosseum::content::Wearable;
use colosseum::dot::DOT;
use colosseum::effect::Effect;
use colosseum::effect::EffectSource;
use colosseum::effect::TargetFlag;
use colosseum::effect::SubEffect;
use colosseum::effect::TargetingScheme;
use colosseum::gender::Gender;
use colosseum::item::BodywearIdentifier;
use colosseum::item::WeaponIdentifier;
use colosseum::lifetime::Lifetime;
use colosseum::modifier::Modifier;
use colosseum::modifier::ModifierExpression;
use colosseum::party::Party;
use colosseum::target::Target;

fn empty_store() -> ContentStore {
    ContentStore {
        weapons: Vec::new(),
        skills: Vec::new(),
        consumables: Vec::new(),
        bodywear: Vec::new(),
        footwear: Vec::new(),
        handwear: Vec::new(),
        headwear: Vec::new(),
        legwear: Vec::new(),
    }
}

fn basic_combatant(name: &str) -> Combatant {
    Combatant {
        name: String::from(name),
        gender: Gender::Unspecified,
        skills: Vec::new(),
        agility: 10,
        dexterity: 10,
        intelligence: 10,
        mind: 10,
        strength: 10,
        vigor: 20,
        vitality: 10,
        bodywear: None,
        footwear: None,
        handwear: None,
        headwear: None,
        legwear: None,
        weapon: None,
        hp: 20,
        fatigue: 0,
        dots: Vec::new(),
        agility_modifiers: Vec::new(),
        dexterity_modifiers: Vec::new(),
        intelligence_modifiers: Vec::new(),
        mind_modifiers: Vec::new(),
        strength_modifiers: Vec::new(),
        vigor_modifiers: Vec::new(),
        vitality_modifiers: Vec::new(),
    }
}

fn constant(expression: ModifierExpression) -> Modifier {
    Modifier { expression, lifetime: Lifetime::Constant }
}

#[test]
fn attribute_add_and_clamped_subtract() {
    // base 10, Add(5) and Add(-3): (10 + 5) - min(15, 3) = 12
    let mut c = basic_combatant("edda");
    c.strength = 10;
    c.strength_modifiers.push(constant(ModifierExpression::Add(5)));
    c.strength_modifiers.push(constant(ModifierExpression::Add(-3)));
    assert_eq!(c.attribute(Attribute::Strength), 12);
}

#[test]
fn attribute_multiply_after_additive() {
    // adding a Multiply(2) to the case above yields 24
    let mut c = basic_combatant("edda");
    c.strength = 10;
    c.strength_modifiers.push(constant(ModifierExpression::Add(5)));
    c.strength_modifiers.push(constant(ModifierExpression::Add(-3)));
    c.strength_modifiers.push(constant(ModifierExpression::Multiply(2)));
    assert_eq!(c.attribute(Attribute::Strength), 24);
}

#[test]
fn attribute_subtraction_never_goes_below_zero() {
    // base 4, Add(-10): 4 - min(4, 10) = 0
    let mut c = basic_combatant("nia");
    c.mind = 4;
    c.mind_modifiers.push(constant(ModifierExpression::Add(-10)));
    assert_eq!(c.attribute(Attribute::Mind), 0);
}

#[test]
fn attribute_zero_add_contributes_nothing() {
    let mut c = basic_combatant("nia");
    c.mind = 7;
    c.mind_modifiers.push(constant(ModifierExpression::Add(0)));
    assert_eq!(c.attribute(Attribute::Mind), 7);
}

#[test]
fn raw_damage_physical_is_strength() {
    let mut c = basic_combatant("brand");
    c.strength = 13;
    assert_eq!(c.raw_damage(Aspect::Physical), 13);
}

#[test]
fn raw_damage_fire_is_half_intelligence_times_mind() {
    let mut c = basic_combatant("brand");
    c.intelligence = 6;
    c.mind = 8;
    assert_eq!(c.raw_damage(Aspect::Fire), 24);
}

#[test]
fn damage_reduced_by_defense() {
    // Physical damage 10 against defense 4: hp drops by exactly 6
    let mut store = empty_store();
    store.bodywear.push(Wearable {
        display_name: String::from("jerkin"),
        description: String::new(),
        defense_fire: 0,
        defense_frost: 0,
        defense_lightning: 0,
        defense_physical: 4,
    });
    let mut c = basic_combatant("tarn");
    c.bodywear = Some(BodywearIdentifier(0));
    c.hp = 20;
    process_damage(&mut c, &store, Aspect::Physical, 10);
    assert_eq!(c.hp, 14);
}

#[test]
fn damage_at_or_below_defense_leaves_hp_unchanged() {
    let mut store = empty_store();
    store.bodywear.push(Wearable {
        display_name: String::from("jerkin"),
        description: String::new(),
        defense_fire: 0,
        defense_frost: 0,
        defense_lightning: 0,
        defense_physical: 4,
    });
    let mut c = basic_combatant("tarn");
    c.bodywear = Some(BodywearIdentifier(0));
    c.hp = 20;
    process_damage(&mut c, &store, Aspect::Physical, 4);
    assert_eq!(c.hp, 20);
    process_damage(&mut c, &store, Aspect::Physical, 3);
    assert_eq!(c.hp, 20);
}

#[test]
fn hp_never_drops_below_zero() {
    let store = empty_store();
    let mut c = basic_combatant("tarn");
    c.hp = 5;
    process_damage(&mut c, &store, Aspect::Physical, 1000);
    assert_eq!(c.hp, 0);
}

#[test]
fn scheduler_prefers_higher_agility() {
    // Agility 10 vs 20, both starting fatigue 100: the agility-20
    // combatant acts strictly first and is not selected again right after
    let store = empty_store();
    let _ = &store;
    let mut slow = basic_combatant("slow");
    slow.agility = 10;
    slow.fatigue = 100;
    let mut fast = basic_combatant("fast");
    fast.agility = 20;
    fast.fatigue = 100;
    let mut state = CombatState {
        parties: vec![
            Party { members: vec![slow], inventory: Vec::new() },
            Party { members: vec![fast], inventory: Vec::new() },
        ],
    };
    let first = state.next_combatant();
    assert_eq!(first, Target { party_index: 1, member_index: 0 });
    let second = state.next_combatant();
    assert_eq!(second, Target { party_index: 0, member_index: 0 });
}

#[test]
fn scheduler_takes_first_ready_in_index_order() {
    let mut a = basic_combatant("a");
    a.fatigue = 0;
    let mut b = basic_combatant("b");
    b.fatigue = 0;
    let mut state = CombatState {
        parties: vec![Party { members: vec![a, b], inventory: Vec::new() }],
    };
    let first = state.next_combatant();
    assert_eq!(first, Target { party_index: 0, member_index: 0 });
    let second = state.next_combatant();
    assert_eq!(second, Target { party_index: 0, member_index: 1 });
}

#[test]
fn self_target_attack_uses_own_physical_fallback() {
    // source == target and no weapon: the implicit physical hit with
    // multiplier one, computed against the target itself
    let store = empty_store();
    let mut c = basic_combatant("lone");
    c.strength = 6;
    c.hp = 20;
    let mut state = CombatState {
        parties: vec![Party { members: vec![c], inventory: Vec::new() }],
    };
    let t = Target { party_index: 0, member_index: 0 };
    let event = CombatEvent::AttackEvent { source: t, targets: vec![t] };
    state.process_event(&store, &event);
    assert_eq!(state.parties[0].members[0].hp, 14);
}

#[test]
fn self_target_attack_uses_own_weapon() {
    // source == target with a weapon: the target's own weapon decides
    let mut store = empty_store();
    store.weapons.push(colosseum::content::Weapon {
        display_name: String::from("torch"),
        description: String::new(),
        effect: Effect {
            sub_effects: vec![SubEffect::Damage { aspect: Aspect::Fire, multiplier: 1 }],
            target_flags: Vec::new(),
            targeting_scheme: TargetingScheme::SingleTarget,
        },
    });
    let mut c = basic_combatant("lone");
    c.intelligence = 4;
    c.mind = 4;
    c.weapon = Some(WeaponIdentifier(0));
    c.hp = 20;
    let mut state = CombatState {
        parties: vec![Party { members: vec![c], inventory: Vec::new() }],
    };
    let t = Target { party_index: 0, member_index: 0 };
    let event = CombatEvent::AttackEvent { source: t, targets: vec![t] };
    state.process_event(&store, &event);
    // fire raw damage: (4 * 4) / 2 = 8
    assert_eq!(state.parties[0].members[0].hp, 12);
}

#[test]
fn attack_with_weapon_hits_with_each_sub_effect() {
    let mut store = empty_store();
    store.weapons.push(colosseum::content::Weapon {
        display_name: String::from("pipe"),
        description: String::new(),
        effect: Effect {
            sub_effects: vec![
                SubEffect::Damage { aspect: Aspect::Physical, multiplier: 1 },
                SubEffect::Damage { aspect: Aspect::Physical, multiplier: 2 },
            ],
            target_flags: Vec::new(),
            targeting_scheme: TargetingScheme::SingleTarget,
        },
    });
    let mut attacker = basic_combatant("alkes");
    attacker.strength = 5;
    attacker.weapon = Some(WeaponIdentifier(0));
    let mut defender = basic_combatant("vega");
    defender.hp = 40;
    let mut state = CombatState {
        parties: vec![
            Party { members: vec![attacker], inventory: Vec::new() },
            Party { members: vec![defender], inventory: Vec::new() },
        ],
    };
    let event = CombatEvent::AttackEvent {
        source: Target { party_index: 0, member_index: 0 },
        targets: vec![Target { party_index: 1, member_index: 0 }],
    };
    state.process_event(&store, &event);
    // 5 + 10 damage, no defense
    assert_eq!(state.parties[1].members[0].hp, 25);
}

#[test]
fn dots_reapply_every_tick_even_after_expiry() {
    // an expired damage-over-time instance is never removed and keeps
    // applying on every later tick
    let store = empty_store();
    let mut c = basic_combatant("burning");
    c.hp = 20;
    c.dots.push(DOT {
        aspect: Aspect::Fire,
        damage_value: 2,
        lifetime: Lifetime::Active { duration: 1 },
    });
    let mut state = CombatState {
        parties: vec![Party { members: vec![c], inventory: Vec::new() }],
    };
    state.process_event(&store, &CombatEvent::SkipEvent);
    assert_eq!(state.parties[0].members[0].hp, 18);
    assert_eq!(
        state.parties[0].members[0].dots[0].lifetime,
        Lifetime::Active { duration: 0 }
    );
    state.process_event(&store, &CombatEvent::SkipEvent);
    assert_eq!(state.parties[0].members[0].hp, 16);
    assert_eq!(
        state.parties[0].members[0].dots[0].lifetime,
        Lifetime::Active { duration: 0 }
    );
}

#[test]
fn modifier_lifetimes_age_on_every_tick() {
    let store = empty_store();
    let mut c = basic_combatant("waning");
    c.strength_modifiers.push(Modifier {
        expression: ModifierExpression::Add(5),
        lifetime: Lifetime::Active { duration: 2 },
    });
    let mut state = CombatState {
        parties: vec![Party { members: vec![c], inventory: Vec::new() }],
    };
    state.process_event(&store, &CombatEvent::SkipEvent);
    assert_eq!(
        state.parties[0].members[0].strength_modifiers[0].lifetime,
        Lifetime::Active { duration: 1 }
    );
    state.process_event(&store, &CombatEvent::SkipEvent);
    assert_eq!(
        state.parties[0].members[0].strength_modifiers[0].lifetime,
        Lifetime::Active { duration: 0 }
    );
}

#[test]
fn dot_sub_effect_stacks_unconditionally() {
    let mut store = empty_store();
    store.skills.push(colosseum::content::Skill {
        display_name: String::from("ignite"),
        description: String::new(),
        effect: Effect {
            sub_effects: vec![SubEffect::DOT {
                aspect: Aspect::Fire,
                multiplier: 1,
                lifetime: Lifetime::Constant,
            }],
            target_flags: Vec::new(),
            targeting_scheme: TargetingScheme::SingleTarget,
        },
    });
    let mut caster = basic_combatant("pyre");
    caster.intelligence = 2;
    caster.mind = 2;
    let target_member = basic_combatant("kindle");
    let mut state = CombatState {
        parties: vec![
            Party { members: vec![caster], inventory: Vec::new() },
            Party { members: vec![target_member], inventory: Vec::new() },
        ],
    };
    let event = CombatEvent::SkillEvent {
        source: Target { party_index: 0, member_index: 0 },
        skill: colosseum::item::SkillIdentifier(0),
        targets: vec![Target { party_index: 1, member_index: 0 }],
    };
    state.process_event(&store, &event);
    state.process_event(&store, &event);
    assert_eq!(state.parties[1].members[0].dots.len(), 2);
}

#[test]
fn alive_and_ready_follow_hp_and_fatigue() {
    let mut c = basic_combatant("status");
    c.hp = 1;
    c.fatigue = 0;
    assert!(c.alive());
    assert!(!c.dead());
    assert!(c.ready());
    c.fatigue = 5;
    assert!(!c.ready());
    c.hp = 0;
    assert!(c.dead());
    assert!(!c.ready());
}

#[test]
fn hp_max_is_effective_vigor() {
    let mut c = basic_combatant("sturdy");
    c.vigor = 20;
    c.vigor_modifiers.push(constant(ModifierExpression::Multiply(3)));
    assert_eq!(c.hp_max(), 60);
    assert_eq!(Combatant::hp_max_initial(17), 17);
}

#[test]
fn target_flags_admit_by_gender_and_origin() {
    let mut c = basic_combatant("vera");
    c.gender = Gender::Female;
    assert!(TargetFlag::Any.satisfied(&c, EffectSource::NoSource));
    assert!(TargetFlag::Gender(Gender::Female).satisfied(&c, EffectSource::NoSource));
    assert!(!TargetFlag::Gender(Gender::Male).satisfied(&c, EffectSource::NoSource));
    assert!(TargetFlag::Origin.satisfied(&c, EffectSource::Origin));
    assert!(!TargetFlag::Origin.satisfied(&c, EffectSource::NoSource));
    let other = basic_combatant("witness");
    assert!(!TargetFlag::Origin.satisfied(&c, EffectSource::Other(&other)));
}

#[test]
fn targeting_scheme_defaults_to_all() {
    assert_eq!(TargetingScheme::default(), TargetingScheme::All);
}

#[test]
fn wearable_defense_is_per_aspect() {
    let w = Wearable {
        display_name: String::from("cloak"),
        description: String::new(),
        defense_fire: 1,
        defense_frost: 2,
        defense_lightning: 3,
        defense_physical: 4,
    };
    assert_eq!(w.defense(Aspect::Fire), 1);
    assert_eq!(w.defense(Aspect::Frost), 2);
    assert_eq!(w.defense(Aspect::Lightning), 3);
    assert_eq!(w.defense(Aspect::Physical), 4);
}

#[test]
fn defense_sums_over_all_worn_slots() {
    let mut store = empty_store();
    store.bodywear.push(Wearable {
        display_name: String::from("vest"),
        description: String::new(),
        defense_fire: 0,
        defense_frost: 0,
        defense_lightning: 0,
        defense_physical: 3,
    });
    store.legwear.push(Wearable {
        display_name: String::from("greaves"),
        description: String::new(),
        defense_fire: 1,
        defense_frost: 0,
        defense_lightning: 0,
        defense_physical: 2,
    });
    let mut c = basic_combatant("clad");
    c.bodywear = Some(BodywearIdentifier(0));
    c.legwear = Some(colosseum::item::LegwearIdentifier(0));
    assert_eq!(c.defense(&store, Aspect::Physical), 5);
    assert_eq!(c.defense(&store, Aspect::Fire), 1);
    assert_eq!(c.absorbtion(Aspect::Physical), 0);
}

#[test]
fn store_check_refuses_unimplemented_damage_aspects() {
    let mut store = empty_store();
    assert!(store.check_store());
    store.weapons.push(colosseum::content::Weapon {
        display_name: String::from("icicle"),
        description: String::new(),
        effect: Effect {
            sub_effects: vec![SubEffect::Damage { aspect: Aspect::Frost, multiplier: 1 }],
            target_flags: Vec::new(),
            targeting_scheme: TargetingScheme::SingleTarget,
        },
    });
    assert!(!store.check_store());
    store.weapons.clear();
    store.skills.push(colosseum::content::Skill {
        display_name: String::from("storm"),
        description: String::new(),
        effect: Effect {
            sub_effects: vec![SubEffect::DOT {
                aspect: Aspect::Lightning,
                multiplier: 1,
                lifetime: Lifetime::Constant,
            }],
            target_flags: Vec::new(),
            targeting_scheme: TargetingScheme::All,
        },
    });
    assert!(!store.check_store());
}
