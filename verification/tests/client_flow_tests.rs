//! Client-side decision logic: menu navigation and the in-combat turn
//! state machine.

use colosseum::codec::encode_combat_event;
use colosseum::codec::encode_take_turn;
use colosseum::codec::encode_victory;
use colosseum::combat_event::CombatEvent;
use colosseum::combat_state::CombatState;
use colosseum::combatant::Combatant;
use colosseum::content::ContentStore;
use colosseum::effect::Effect;
use colosseum::effect::SubEffect;
use colosseum::effect::TargetingScheme;
use colosseum::gender::Gender;
use colosseum::item::WeaponIdentifier;
use colosseum::message::TakeTurn;
use colosseum::message::Victory;
use colosseum::menu::ConnectingDecision;
use colosseum::menu::ConnectingState;
use colosseum::menu::MenuKey;
use colosseum::menu::MenuOption;
use colosseum::menu::NavigationCommand;
use colosseum::menu::NavigationState;
use colosseum::menu::SplashState;
use colosseum::party::Party;
use colosseum::target::Target;
use colosseum::turn::apply_transition;
use colosseum::turn::Action;
use colosseum::turn::ActionDecision;
use colosseum::turn::ConfirmationDecision;
use colosseum::turn::SkillDecision;
use colosseum::turn::StateTransition;
use colosseum::turn::TargetingDecision;
use colosseum::turn::TurnState;
use colosseum::turn::WaitingDecision;
use colosseum::turn::WaitingState;

fn empty_store() -> ContentStore {
    ContentStore {
        weapons: Vec::new(),
        skills: Vec::new(),
        consumables: Vec::new(),
        bodywear: Vec::new(),
        footwear: Vec::new(),
        handwear: Vec::new(),
        headwear: Vec::new(),
        legwear: Vec::new(),
    }
}

fn fighter(name: &str) -> Combatant {
    Combatant {
        name: String::from(name),
        gender: Gender::Unspecified,
        skills: Vec::new(),
        agility: 10,
        dexterity: 10,
        intelligence: 10,
        mind: 10,
        strength: 10,
        vigor: 20,
        vitality: 10,
        bodywear: None,
        footwear: None,
        handwear: None,
        headwear: None,
        legwear: None,
        weapon: None,
        hp: 20,
        fatigue: 0,
        dots: Vec::new(),
        agility_modifiers: Vec::new(),
        dexterity_modifiers: Vec::new(),
        intelligence_modifiers: Vec::new(),
        mind_modifiers: Vec::new(),
        strength_modifiers: Vec::new(),
        vigor_modifiers: Vec::new(),
        vitality_modifiers: Vec::new(),
    }
}

fn two_member_state() -> CombatState {
    CombatState {
        parties: vec![
            Party { members: vec![fighter("hero")], inventory: Vec::new() },
            Party { members: vec![fighter("rival")], inventory: Vec::new() },
        ],
    }
}

#[test]
fn menu_option_cycles() {
    assert_eq!(MenuOption::Play.next(), MenuOption::Quit);
    assert_eq!(MenuOption::Quit.next(), MenuOption::Play);
    assert_eq!(MenuOption::Play.prev(), MenuOption::Quit);
    assert_eq!(MenuOption::Quit.prev(), MenuOption::Play);
}

#[test]
fn action_cycles() {
    assert_eq!(Action::first(), Action::Attack);
    assert_eq!(Action::Attack.next(), Action::Skill);
    assert_eq!(Action::Skill.next(), Action::Skip);
    assert_eq!(Action::Skip.next(), Action::Attack);
    assert_eq!(Action::Attack.prev(), Action::Skip);
    assert_eq!(Action::Skill.prev(), Action::Attack);
    assert_eq!(Action::Skip.prev(), Action::Skill);
}

#[test]
fn splash_any_key_connects() {
    let splash = SplashState::new();
    assert!(splash.handle_key(MenuKey::Down));
    let connecting = ConnectingState::from_splash_state();
    assert_eq!(connecting.handle_key(MenuKey::Back), ConnectingDecision::BackToSplash);
    assert_eq!(connecting.handle_key(MenuKey::Down), ConnectingDecision::Stay);
    assert_eq!(
        connecting.handle_protocol_version(),
        ConnectingDecision::EnterNavigation
    );
}

#[test]
fn navigation_submits_party_once() {
    let mut nav = NavigationState::from_connecting_state();
    assert_eq!(nav.option, MenuOption::Play);
    let (command, back) = nav.handle_key(MenuKey::Confirm);
    assert_eq!(command, NavigationCommand::SubmitParty);
    assert!(!back);
    assert!(nav.waiting_for_state);
    // while waiting, keys are ignored
    let (command, back) = nav.handle_key(MenuKey::Down);
    assert_eq!(command, NavigationCommand::Idle);
    assert!(!back);
    assert!(nav.handle_combat_state());
}

#[test]
fn navigation_quit_terminates() {
    let mut nav = NavigationState::from_connecting_state();
    nav.handle_key(MenuKey::Down);
    assert_eq!(nav.option, MenuOption::Quit);
    let (command, _) = nav.handle_key(MenuKey::Confirm);
    assert_eq!(command, NavigationCommand::Terminate);
}

#[test]
fn unarmed_attack_goes_through_targeting_and_confirmation() {
    let store = empty_store();
    let state = two_member_state();
    let waiting = WaitingState::new();
    let mut action = waiting.handle_take_turn(Target { party_index: 0, member_index: 0 });
    assert_eq!(action.action, Action::Attack);

    // unarmed: single-target scheme, so target selection opens
    let decision = action.handle_key(MenuKey::Confirm, &state, &store);
    let mut targeting = match decision {
        ActionDecision::EnterTargeting(t) => t,
        _ => panic!("expected targeting"),
    };
    assert_eq!(targeting.viable_targets.len(), 2);

    // select the second viable target
    targeting.handle_key(MenuKey::Down);
    assert_eq!(targeting.target_index, 1);
    let decision = targeting.handle_key(MenuKey::Confirm);
    let confirmation = match decision {
        TargetingDecision::EnterConfirmation(c) => c,
        _ => panic!("expected confirmation"),
    };
    let decision = confirmation.handle_key(MenuKey::Confirm);
    match decision {
        ConfirmationDecision::SendEvent(CombatEvent::AttackEvent { source, targets }) => {
            assert_eq!(source, Target { party_index: 0, member_index: 0 });
            assert_eq!(targets, vec![Target { party_index: 1, member_index: 0 }]);
        },
        _ => panic!("expected an attack event"),
    }
}

#[test]
fn all_targeting_weapon_confirms_against_everyone() {
    let mut store = empty_store();
    store.weapons.push(colosseum::content::Weapon {
        display_name: String::from("whirlwind"),
        description: String::new(),
        effect: Effect {
            sub_effects: vec![SubEffect::Damage { aspect: colosseum::aspect::Aspect::Physical, multiplier: 1 }],
            target_flags: Vec::new(),
            targeting_scheme: TargetingScheme::All,
        },
    });
    let mut state = two_member_state();
    state.parties[0].members[0].weapon = Some(WeaponIdentifier(0));
    let waiting = WaitingState::new();
    let mut action = waiting.handle_take_turn(Target { party_index: 0, member_index: 0 });
    let decision = action.handle_key(MenuKey::Confirm, &state, &store);
    match decision {
        ActionDecision::EnterConfirmation(c) => match c.event {
            CombatEvent::AttackEvent { targets, .. } => assert_eq!(targets.len(), 2),
            _ => panic!("expected an attack event"),
        },
        _ => panic!("expected confirmation"),
    }
}

#[test]
fn skip_sends_a_skip_event() {
    let store = empty_store();
    let state = two_member_state();
    let waiting = WaitingState::new();
    let mut action = waiting.handle_take_turn(Target { party_index: 0, member_index: 0 });
    action.handle_key(MenuKey::Down, &state, &store);
    action.handle_key(MenuKey::Down, &state, &store);
    assert_eq!(action.action, Action::Skip);
    let decision = action.handle_key(MenuKey::Confirm, &state, &store);
    match decision {
        ActionDecision::SendSkip(e) => assert_eq!(e, CombatEvent::SkipEvent),
        _ => panic!("expected a skip"),
    }
}

#[test]
fn transitions_drive_the_screen_stack() {
    let mut stack: Vec<TurnState> = vec![];
    let waiting = TurnState::new();
    // staying keeps the current screen on top
    apply_transition(&mut stack, waiting.clone(), StateTransition::Stay);
    assert_eq!(stack.len(), 1);
    // a new screen goes on top of the current one
    let current = stack.pop().unwrap();
    let action = TurnState::ActionState(
        WaitingState::new().handle_take_turn(Target { party_index: 0, member_index: 0 }),
    );
    apply_transition(&mut stack, current, StateTransition::New(action));
    assert_eq!(stack.len(), 2);
    // backing out drops the current screen
    let current = stack.pop().unwrap();
    apply_transition(&mut stack, current, StateTransition::Old);
    assert_eq!(stack.len(), 1);
    assert_eq!(stack[0], waiting);
}

#[test]
fn multi_target_selection_continues_until_count_is_reached() {
    let mut store = empty_store();
    store.skills.push(colosseum::content::Skill {
        display_name: String::from("volley"),
        description: String::new(),
        effect: Effect {
            sub_effects: vec![SubEffect::Damage {
                aspect: colosseum::aspect::Aspect::Physical,
                multiplier: 1,
            }],
            target_flags: Vec::new(),
            targeting_scheme: TargetingScheme::MultiTarget(2),
        },
    });
    let mut state = two_member_state();
    state.parties[0].members[0].skills.push(colosseum::item::SkillIdentifier(0));
    let waiting = WaitingState::new();
    let mut action = waiting.handle_take_turn(Target { party_index: 0, member_index: 0 });
    action.handle_key(MenuKey::Down, &state, &store);
    assert_eq!(action.action, Action::Skill);
    let decision = action.handle_key(MenuKey::Confirm, &state, &store);
    let mut skills = match decision {
        ActionDecision::EnterSkills(s) => s,
        _ => panic!("expected skill selection"),
    };
    let decision = skills.handle_key(MenuKey::Confirm, &state, &store);
    let mut targeting = match decision {
        SkillDecision::EnterTargeting(t) => t,
        _ => panic!("expected targeting"),
    };
    // first pick: one of two targets selected, selection continues
    let decision = targeting.handle_key(MenuKey::Confirm);
    let mut targeting = match decision {
        TargetingDecision::Continue(t) => t,
        _ => panic!("expected a continued selection"),
    };
    assert_eq!(targeting.targets.len(), 1);
    assert_eq!(targeting.viable_targets.len(), 1);
    // second pick completes the count
    let decision = targeting.handle_key(MenuKey::Confirm);
    let confirmation = match decision {
        TargetingDecision::EnterConfirmation(c) => c,
        _ => panic!("expected confirmation"),
    };
    match confirmation.event {
        CombatEvent::SkillEvent { ref targets, skill, .. } => {
            assert_eq!(skill, colosseum::item::SkillIdentifier(0));
            assert_eq!(targets.len(), 2);
        },
        _ => panic!("expected a skill event"),
    }
}

#[test]
fn waiting_screen_dispatches_turn_prompts_and_mirrored_events() {
    let waiting = WaitingState::new();
    let target = Target { party_index: 1, member_index: 0 };
    match waiting.handle_message(&encode_take_turn(&TakeTurn { target })) {
        WaitingDecision::EnterAction(a) => {
            assert_eq!(a.active, target);
            assert_eq!(a.action, Action::Attack);
        },
        _ => panic!("expected action selection"),
    }

    // a mirrored combat event is handed back for replica application
    let store = empty_store();
    let mut replica = two_member_state();
    let event = CombatEvent::AttackEvent {
        source: Target { party_index: 0, member_index: 0 },
        targets: vec![Target { party_index: 1, member_index: 0 }],
    };
    match waiting.handle_message(&encode_combat_event(&event)) {
        WaitingDecision::ApplyEvent(e) => {
            assert_eq!(e, event);
            replica.process_event(&store, &e);
            assert_eq!(replica.parties[1].members[0].hp, 10);
        },
        _ => panic!("expected a mirrored event"),
    }

    // other envelopes and malformed payloads are ignored
    assert!(matches!(
        waiting.handle_message(&encode_victory(&Victory)),
        WaitingDecision::Ignore
    ));
    let mut bad = encode_take_turn(&TakeTurn { target });
    bad.payload.pop();
    assert!(matches!(waiting.handle_message(&bad), WaitingDecision::Ignore));
}
