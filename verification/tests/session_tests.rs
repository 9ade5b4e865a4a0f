//! Orchestrator behavior: handshake, matchmaking, event fan-out and the
//! error paths.

use colosseum::codec::decode_combat_state;
use colosseum::codec::decode_protocol_version;
use colosseum::codec::decode_take_turn;
use colosseum::codec::encode_combat_event;
use colosseum::codec::encode_party;
use colosseum::codec::encode_protocol_version;
use colosseum::combat_event::CombatEvent;
use colosseum::combatant::Combatant;
use colosseum::content::ContentStore;
use colosseum::gender::Gender;
use colosseum::message::Message;
use colosseum::message::MessageType;
use colosseum::message::ProtocolVersion;
use colosseum::party::Party;
use colosseum::session::Server;
use colosseum::session::ServerError;
use colosseum::target::Target;

fn empty_store() -> ContentStore {
    ContentStore {
        weapons: Vec::new(),
        skills: Vec::new(),
        consumables: Vec::new(),
        bodywear: Vec::new(),
        footwear: Vec::new(),
        handwear: Vec::new(),
        headwear: Vec::new(),
        legwear: Vec::new(),
    }
}

fn fighter(name: &str, agility: u64, fatigue: u64) -> Combatant {
    Combatant {
        name: String::from(name),
        gender: Gender::Unspecified,
        skills: Vec::new(),
        agility,
        dexterity: 10,
        intelligence: 10,
        mind: 10,
        strength: 10,
        vigor: 20,
        vitality: 10,
        bodywear: None,
        footwear: None,
        handwear: None,
        headwear: None,
        legwear: None,
        weapon: None,
        hp: 20,
        fatigue,
        dots: Vec::new(),
        agility_modifiers: Vec::new(),
        dexterity_modifiers: Vec::new(),
        intelligence_modifiers: Vec::new(),
        mind_modifiers: Vec::new(),
        strength_modifiers: Vec::new(),
        vigor_modifiers: Vec::new(),
        vitality_modifiers: Vec::new(),
    }
}

fn single_party(name: &str, agility: u64, fatigue: u64) -> Party {
    Party { members: vec![fighter(name, agility, fatigue)], inventory: Vec::new() }
}

#[test]
fn handshake_is_echoed_to_unknown_addresses() {
    let store = empty_store();
    let mut server = Server::new();
    let hello = encode_protocol_version(&ProtocolVersion(3));
    let (outgoing, error) = server.handle_message(&store, 42, &hello);
    assert!(error.is_none());
    assert_eq!(outgoing.len(), 1);
    assert_eq!(outgoing[0].address, 42);
    assert_eq!(
        decode_protocol_version(&outgoing[0].message),
        Some(ProtocolVersion(0))
    );
}

#[test]
fn non_handshake_from_unknown_address_is_ignored() {
    let store = empty_store();
    let mut server = Server::new();
    let message = encode_party(&single_party("drift", 10, 0));
    let (outgoing, error) = server.handle_message(&store, 9, &message);
    assert!(outgoing.is_empty());
    assert!(error.is_none());
}

#[test]
fn two_submissions_create_a_match_with_identical_states() {
    // both clients receive the identical combat state, and the first pick
    // is deterministic
    let store = empty_store();
    let mut server = Server::new();
    server.on_connect(1);
    server.on_connect(2);

    let first = encode_party(&single_party("ada", 10, 0));
    let (outgoing, error) = server.handle_message(&store, 1, &first);
    assert!(outgoing.is_empty());
    assert!(error.is_none());

    let second = encode_party(&single_party("bel", 20, 0));
    let (outgoing, error) = server.handle_message(&store, 2, &second);
    assert!(error.is_none());
    assert_eq!(outgoing.len(), 3);

    // the queued client hears first, then the new one; the payloads match
    assert_eq!(outgoing[0].address, 1);
    assert_eq!(outgoing[1].address, 2);
    let state_1 = decode_combat_state(&outgoing[0].message).expect("state must decode");
    let state_2 = decode_combat_state(&outgoing[1].message).expect("state must decode");
    assert_eq!(state_1, state_2);
    assert_eq!(state_1.parties[0].members[0].name, "ada");
    assert_eq!(state_1.parties[1].members[0].name, "bel");

    // both start ready, so the stable index order decides: party 0 —
    // which the first-queued client owns — acts first
    assert_eq!(outgoing[2].address, 1);
    let take_turn = decode_take_turn(&outgoing[2].message).expect("take turn must decode");
    assert_eq!(take_turn.target, Target { party_index: 0, member_index: 0 });
}

#[test]
fn matchmaking_pairs_as_soon_as_two_wait() {
    // pairing happens the moment the pool exceeds one entry, so a third
    // client queues afresh instead of joining the running match
    let store = empty_store();
    let mut server = Server::new();
    server.on_connect(1);
    server.on_connect(2);
    server.on_connect(3);
    let (out1, _) = server.handle_message(&store, 1, &encode_party(&single_party("a", 10, 0)));
    assert!(out1.is_empty());
    let (out2, error) = server.handle_message(&store, 2, &encode_party(&single_party("b", 10, 0)));
    assert!(error.is_none());
    let addresses: Vec<u64> = out2.iter().map(|o| o.address).collect();
    assert!(addresses.contains(&1));
    assert!(addresses.contains(&2));
    let (out3, error) = server.handle_message(&store, 3, &encode_party(&single_party("c", 10, 0)));
    assert!(out3.is_empty());
    assert!(error.is_none());
}

#[test]
fn combat_event_is_broadcast_and_turn_rotates() {
    let store = empty_store();
    let mut server = Server::new();
    server.on_connect(1);
    server.on_connect(2);
    server.handle_message(&store, 1, &encode_party(&single_party("ada", 10, 100)));
    let (outgoing, error) = server.handle_message(&store, 2, &encode_party(&single_party("bel", 20, 100)));
    assert!(error.is_none());
    // agility 20 acts first; it belongs to party 1, owned by client 2
    assert_eq!(outgoing[2].address, 2);
    let first_turn = decode_take_turn(&outgoing[2].message).unwrap();
    assert_eq!(first_turn.target, Target { party_index: 1, member_index: 0 });

    // client 2 skips; the event is echoed to both and the slower
    // combatant's turn comes up
    let skip = encode_combat_event(&CombatEvent::SkipEvent);
    let (outgoing, error) = server.handle_message(&store, 2, &skip);
    assert!(error.is_none());
    assert_eq!(outgoing.len(), 3);
    assert_eq!(outgoing[0].address, 1);
    assert_eq!(outgoing[0].message.type_, MessageType::CombatEvent);
    assert_eq!(outgoing[1].address, 2);
    assert_eq!(outgoing[2].address, 1);
    let next_turn = decode_take_turn(&outgoing[2].message).unwrap();
    assert_eq!(next_turn.target, Target { party_index: 0, member_index: 0 });
}

#[test]
fn malformed_party_payload_is_dropped_with_error() {
    let store = empty_store();
    let mut server = Server::new();
    server.on_connect(5);
    let message = Message { type_: MessageType::Party, payload: vec![1, 2, 3] };
    let (outgoing, error) = server.handle_message(&store, 5, &message);
    assert!(outgoing.is_empty());
    assert_eq!(error, Some(ServerError::MalformedPayload));
}

#[test]
fn party_with_unknown_content_is_rejected() {
    let store = empty_store();
    let mut server = Server::new();
    server.on_connect(5);
    let mut party = single_party("ghost", 10, 0);
    party.members[0].weapon = Some(colosseum::item::WeaponIdentifier(0));
    let message = encode_party(&party);
    let (outgoing, error) = server.handle_message(&store, 5, &message);
    assert!(outgoing.is_empty());
    assert_eq!(error, Some(ServerError::RejectedParty));
}

#[test]
fn malformed_event_in_match_is_dropped_with_error() {
    let store = empty_store();
    let mut server = Server::new();
    server.on_connect(1);
    server.on_connect(2);
    server.handle_message(&store, 1, &encode_party(&single_party("a", 10, 0)));
    server.handle_message(&store, 2, &encode_party(&single_party("b", 10, 0)));
    let bad = Message { type_: MessageType::CombatEvent, payload: vec![0, 1] };
    let (outgoing, error) = server.handle_message(&store, 1, &bad);
    assert!(outgoing.is_empty());
    assert_eq!(error, Some(ServerError::MalformedPayload));
}

#[test]
fn event_with_unresolvable_target_is_dropped_with_error() {
    let store = empty_store();
    let mut server = Server::new();
    server.on_connect(1);
    server.on_connect(2);
    server.handle_message(&store, 1, &encode_party(&single_party("a", 10, 0)));
    server.handle_message(&store, 2, &encode_party(&single_party("b", 10, 0)));
    let event = CombatEvent::AttackEvent {
        source: Target { party_index: 0, member_index: 0 },
        targets: vec![Target { party_index: 7, member_index: 0 }],
    };
    let (outgoing, error) = server.handle_message(&store, 1, &encode_combat_event(&event));
    assert!(outgoing.is_empty());
    assert_eq!(error, Some(ServerError::InvalidEvent));
}

#[test]
fn unschedulable_parties_stall_the_match_loudly() {
    // zero agility and positive fatigue: no combatant can ever become
    // ready, which is a configuration error the orchestrator reports
    let store = empty_store();
    let mut server = Server::new();
    server.on_connect(1);
    server.on_connect(2);
    server.handle_message(&store, 1, &encode_party(&single_party("a", 0, 100)));
    let (outgoing, error) = server.handle_message(&store, 2, &encode_party(&single_party("b", 0, 100)));
    // both clients still receive the state, but no turn prompt is sent
    assert_eq!(outgoing.len(), 2);
    assert_eq!(error, Some(ServerError::Unschedulable));
}
