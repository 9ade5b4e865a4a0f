//! Wire protocol behavior: canonical encodings, round trips, and rejection
//! of malformed envelopes.

use colosseum::aspect::Aspect;
use colosseum::codec::decode_combat_event;
use colosseum::codec::decode_combat_state;
use colosseum::codec::decode_message;
use colosseum::codec::decode_party;
use colosseum::codec::decode_protocol_version;
use colosseum::codec::decode_take_turn;
use colosseum::codec::decode_victory;
use colosseum::codec::encode_combat_event;
use colosseum::codec::encode_combat_state;
use colosseum::codec::encode_message;
use colosseum::codec::encode_party;
use colosseum::codec::encode_protocol_version;
use colosseum::codec::encode_take_turn;
use colosseum::codec::encode_victory;
use colosseum::combat_event::CombatEvent;
use colosseum::combat_state::CombatState;
use colosseum::combatant::Combatant;
use colosseum::gender::Gender;
use colosseum::item::BodywearIdentifier;
use colosseum::item::ConsumableIdentifier;
use colosseum::item::Item;
use colosseum::item::SkillIdentifier;
use colosseum::item::WeaponIdentifier;
use colosseum::lifetime::Lifetime;
use colosseum::message::Message;
use colosseum::message::MessageType;
use colosseum::message::ProtocolVersion;
use colosseum::message::TakeTurn;
use colosseum::message::Victory;
use colosseum::modifier::Modifier;
use colosseum::modifier::ModifierExpression;
use colosseum::party::Party;
use colosseum::target::Target;

fn sample_combatant() -> Combatant {
    Combatant {
        name: String::from("Angelo"),
        gender: Gender::Male,
        skills: vec![SkillIdentifier(3)],
        agility: 10,
        dexterity: 13,
        intelligence: 6,
        mind: 8,
        strength: 5,
        vigor: 20,
        vitality: 12,
        bodywear: Some(BodywearIdentifier(1)),
        footwear: None,
        handwear: Some(colosseum::item::HandwearIdentifier(0)),
        headwear: None,
        legwear: None,
        weapon: Some(WeaponIdentifier(2)),
        hp: 20,
        fatigue: u64::MAX,
        dots: vec![colosseum::dot::DOT {
            aspect: Aspect::Fire,
            damage_value: 3,
            lifetime: Lifetime::Active { duration: 4 },
        }],
        agility_modifiers: vec![Modifier {
            expression: ModifierExpression::Add(-2),
            lifetime: Lifetime::Constant,
        }],
        dexterity_modifiers: Vec::new(),
        intelligence_modifiers: Vec::new(),
        mind_modifiers: vec![Modifier {
            expression: ModifierExpression::Multiply(2),
            lifetime: Lifetime::Active { duration: 1 },
        }],
        strength_modifiers: Vec::new(),
        vigor_modifiers: Vec::new(),
        vitality_modifiers: Vec::new(),
    }
}

fn sample_party() -> Party {
    Party {
        members: vec![sample_combatant()],
        inventory: vec![Item::Consumable(ConsumableIdentifier(7)), Item::Weapon(WeaponIdentifier(1))],
    }
}

#[test]
fn message_tags_are_stable() {
    assert_eq!(MessageType::ProtocolVersion.tag(), 1);
    assert_eq!(MessageType::CombatState.tag(), 20);
    assert_eq!(MessageType::TakeTurn.tag(), 22);
    assert_eq!(MessageType::CombatEvent.tag(), 23);
    assert_eq!(MessageType::Victory.tag(), 30);
    assert_eq!(MessageType::Party.tag(), 255);
    assert_eq!(MessageType::from_tag(20), Some(MessageType::CombatState));
    assert_eq!(MessageType::from_tag(2), None);
}

#[test]
fn combat_event_attack_round_trip() {
    let event = CombatEvent::AttackEvent {
        source: Target { party_index: 0, member_index: 1 },
        targets: vec![
            Target { party_index: 1, member_index: 0 },
            Target { party_index: 1, member_index: 2 },
        ],
    };
    let message = encode_combat_event(&event);
    assert_eq!(message.type_, MessageType::CombatEvent);
    assert_eq!(decode_combat_event(&message), Some(event));
}

#[test]
fn combat_event_consumable_round_trip() {
    let event = CombatEvent::ConsumableEvent {
        source: Target { party_index: 0, member_index: 0 },
        consumable: ConsumableIdentifier(9),
        targets: vec![Target { party_index: 0, member_index: 0 }],
    };
    let message = encode_combat_event(&event);
    assert_eq!(decode_combat_event(&message), Some(event));
}

#[test]
fn combat_event_skill_round_trip() {
    let event = CombatEvent::SkillEvent {
        source: Target { party_index: 1, member_index: 3 },
        skill: SkillIdentifier(4),
        targets: vec![],
    };
    let message = encode_combat_event(&event);
    assert_eq!(decode_combat_event(&message), Some(event));
}

#[test]
fn combat_event_skip_round_trip() {
    let event = CombatEvent::SkipEvent;
    let message = encode_combat_event(&event);
    assert_eq!(decode_combat_event(&message), Some(event));
}

#[test]
fn combat_event_rejects_wrong_tag() {
    let event = CombatEvent::SkipEvent;
    let mut message = encode_combat_event(&event);
    message.type_ = MessageType::Party;
    assert_eq!(decode_combat_event(&message), None);
}

#[test]
fn combat_event_rejects_trailing_bytes() {
    let event = CombatEvent::SkipEvent;
    let mut message = encode_combat_event(&event);
    message.payload.push(0);
    assert_eq!(decode_combat_event(&message), None);
}

#[test]
fn combat_event_rejects_truncated_payload() {
    let event = CombatEvent::AttackEvent {
        source: Target { party_index: 0, member_index: 0 },
        targets: vec![Target { party_index: 0, member_index: 0 }],
    };
    let mut message = encode_combat_event(&event);
    message.payload.pop();
    assert_eq!(decode_combat_event(&message), None);
}

#[test]
fn combat_event_rejects_unknown_discriminant() {
    let message = Message { type_: MessageType::CombatEvent, payload: vec![9] };
    assert_eq!(decode_combat_event(&message), None);
}

#[test]
fn envelope_round_trip() {
    let event = CombatEvent::AttackEvent {
        source: Target { party_index: 0, member_index: 0 },
        targets: vec![Target { party_index: 1, member_index: 0 }],
    };
    let message = encode_combat_event(&event);
    let bytes = encode_message(&message);
    assert_eq!(bytes[0], 23);
    let decoded = decode_message(&bytes).expect("envelope must decode");
    assert_eq!(decoded, message);
    assert_eq!(decode_combat_event(&decoded), Some(event));
}

#[test]
fn envelope_rejects_unknown_tag() {
    let message = encode_combat_event(&CombatEvent::SkipEvent);
    let mut bytes = encode_message(&message);
    bytes[0] = 77;
    assert_eq!(decode_message(&bytes), None);
}

#[test]
fn envelope_rejects_truncation_and_trailing_garbage() {
    let message = encode_combat_event(&CombatEvent::SkipEvent);
    let mut bytes = encode_message(&message);
    bytes.pop();
    assert_eq!(decode_message(&bytes), None);
    let mut bytes2 = encode_message(&message);
    bytes2.push(1);
    assert_eq!(decode_message(&bytes2), None);
    assert_eq!(decode_message(&Vec::new()), None);
}

#[test]
fn party_round_trip() {
    let party = sample_party();
    let message = encode_party(&party);
    assert_eq!(message.type_, MessageType::Party);
    assert_eq!(decode_party(&message), Some(party));
}

#[test]
fn party_rejects_malformed_payload() {
    let message = Message { type_: MessageType::Party, payload: vec![1, 2, 3] };
    assert_eq!(decode_party(&message), None);
}

#[test]
fn combat_state_round_trip() {
    let state = CombatState {
        parties: vec![sample_party(), Party { members: Vec::new(), inventory: Vec::new() }],
    };
    let message = encode_combat_state(&state);
    assert_eq!(message.type_, MessageType::CombatState);
    assert_eq!(decode_combat_state(&message), Some(state));
}

#[test]
fn protocol_version_round_trip() {
    let version = ProtocolVersion(0);
    let message = encode_protocol_version(&version);
    assert_eq!(message.type_, MessageType::ProtocolVersion);
    assert_eq!(decode_protocol_version(&message), Some(version));
    let bad = Message { type_: MessageType::ProtocolVersion, payload: vec![0, 0] };
    assert_eq!(decode_protocol_version(&bad), None);
}

#[test]
fn take_turn_round_trip() {
    let take_turn = TakeTurn { target: Target { party_index: 1, member_index: 4 } };
    let message = encode_take_turn(&take_turn);
    assert_eq!(message.type_, MessageType::TakeTurn);
    assert_eq!(decode_take_turn(&message), Some(take_turn));
}

#[test]
fn victory_round_trip() {
    let message = encode_victory(&Victory);
    assert_eq!(message.type_, MessageType::Victory);
    assert_eq!(decode_victory(&message), Some(Victory));
    let bad = Message { type_: MessageType::Victory, payload: vec![0] };
    assert_eq!(decode_victory(&bad), None);
}

#[test]
fn unicode_names_survive_the_codec() {
    let mut party = sample_party();
    party.members[0].name = String::from("Ångström 電光");
    let message = encode_party(&party);
    assert_eq!(decode_party(&message), Some(party));
}
