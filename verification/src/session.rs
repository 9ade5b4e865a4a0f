//! The server-side session orchestrator: pairs waiting clients into
//! matches, tracks which connected address owns which combatants, routes
//! turn prompts, and fans combat events out to participants and spectators.
//!
//! Addresses are opaque 64-bit tokens; the transport shell maps real socket
//! addresses to them. The orchestrator itself performs no I/O: every call
//! returns the messages to deliver.

use vstd::prelude::*;

use crate::codec::decode_combat_event;
use crate::codec::decode_event_payload;
use crate::codec::decode_party_payload;
use crate::codec::decode_party;
use crate::codec::enc_combat_event;
use crate::codec::enc_combat_state;
use crate::codec::enc_party;
use crate::codec::enc_protocol_version;
use crate::codec::enc_take_turn;
use crate::codec::encode_combat_event;
use crate::codec::encode_combat_state;
use crate::codec::encode_protocol_version;
use crate::codec::encode_take_turn;
use crate::combat_event::CombatEvent;
use crate::combat_state::CombatState;
use crate::combat_state::check_party_ids;
use crate::combat_state::event_processed;
use crate::combat_state::event_view_wf;
use crate::combat_state::event_wf;
use crate::combat_state::next_turn;
use crate::combat_state::party_ids_wf;
use crate::combat_state::schedulable;
use crate::combat_state::spec_target_list;
use crate::combat_state::state_ids_wf;
use crate::content::ContentStore;
use crate::content::ContentStoreView;
use crate::content::store_wf;
use crate::message::Message;
use crate::message::MessageType;
use crate::message::MessageView;
use crate::message::ProtocolVersion;
use crate::message::TakeTurn;
use crate::party::Party;
use crate::party::PartyView;
use crate::target::Target;

verus! {

/// One address bound to a match together with the combatants it owns.
#[verifier::ext_equal]
pub ghost struct ParticipantView {
    pub address: u64,
    pub ownership: Seq<Target>,
}

pub struct Participant {
    pub address: u64,
    pub ownership: Vec<Target>,
}

impl View for Participant {
    type V = ParticipantView;

    open spec fn view(&self) -> ParticipantView {
        ParticipantView { address: self.address, ownership: self.ownership@ }
    }
}

/// One running match: its participants, its spectators, and the
/// authoritative combat state.
#[verifier::ext_equal]
pub ghost struct MatchView {
    pub participants: Seq<ParticipantView>,
    pub spectators: Seq<u64>,
    pub combat_state: Seq<PartyView>,
}

pub struct Match {
    pub participants: Vec<Participant>,
    pub spectators: Vec<u64>,
    pub combat_state: CombatState,
}

impl View for Match {
    type V = MatchView;

    open spec fn view(&self) -> MatchView {
        MatchView {
            participants: self.participants@.map_values(|p: Participant| p@),
            spectators: self.spectators@,
            combat_state: self.combat_state@,
        }
    }
}

/// A client that has submitted its party and waits to be paired.
#[verifier::ext_equal]
pub ghost struct ReadyClientView {
    pub address: u64,
    pub party: PartyView,
}

pub struct ReadyClient {
    pub address: u64,
    pub party: Party,
}

impl View for ReadyClient {
    type V = ReadyClientView;

    open spec fn view(&self) -> ReadyClientView {
        ReadyClientView { address: self.address, party: self.party@ }
    }
}

/// One message to deliver to one address.
#[verifier::ext_equal]
pub ghost struct OutboundView {
    pub address: u64,
    pub message: MessageView,
}

pub struct Outbound {
    pub address: u64,
    pub message: Message,
}

impl View for Outbound {
    type V = OutboundView;

    open spec fn view(&self) -> OutboundView {
        OutboundView { address: self.address, message: self.message@ }
    }
}

/// Why a message was dropped or a turn prompt withheld. Every value is
/// meant to be logged by the caller; nothing is swallowed silently.
#[derive(Clone, Copy, Debug, Eq, PartialEq, Structural)]
pub enum ServerError {
    /// The payload did not decode under its tag's decoder.
    MalformedPayload,
    /// The submitted party references content that does not exist.
    RejectedParty,
    /// The event's locators or identifiers do not resolve.
    InvalidEvent,
    /// The scheduler selected a combatant no participant owns: an
    /// invariant violation. The match stalls; no turn prompt is sent.
    UnownedTurnTarget,
    /// No combatant can ever become ready: a configuration error in the
    /// submitted parties. The match stalls; no turn prompt is sent.
    Unschedulable,
}

#[verifier::ext_equal]
pub ghost struct ServerView {
    pub clients: Seq<u64>,
    pub ready_clients: Seq<ReadyClientView>,
    pub matches: Seq<MatchView>,
}

/// The orchestrator's whole state: connected addresses, the ready pool
/// (used as a stack: the two most recently queued clients are paired), and
/// the running matches.
pub struct Server {
    pub clients: Vec<u64>,
    pub ready_clients: Vec<ReadyClient>,
    pub matches: Vec<Match>,
}

impl View for Server {
    type V = ServerView;

    open spec fn view(&self) -> ServerView {
        ServerView {
            clients: self.clients@,
            ready_clients: self.ready_clients@.map_values(|r: ReadyClient| r@),
            matches: self.matches@.map_values(|m: Match| m@),
        }
    }
}

/// Whether `address` is one of the match's participants.
pub open spec fn has_participant(m: MatchView, address: u64) -> bool {
    exists|i: int|
        0 <= i < m.participants.len() && (#[trigger] m.participants[i]).address == address
}

/// The first match the address participates in, if any. Spectators only
/// listen; messages never route through them.
pub open spec fn find_match(matches: Seq<MatchView>, address: u64) -> Option<int>
    decreases matches.len(),
{
    if matches.len() == 0 {
        None
    } else if has_participant(matches.first(), address) {
        Some(0)
    } else {
        match find_match(matches.drop_first(), address) {
            Some(i) => Some(i + 1),
            None => None,
        }
    }
}

proof fn lemma_find_match_at(matches: Seq<MatchView>, address: u64, k: int)
    requires
        0 <= k < matches.len(),
        forall|j: int| 0 <= j < k ==> !has_participant(#[trigger] matches[j], address),
        has_participant(matches[k], address),
    ensures
        find_match(matches, address) == Some(k),
    decreases matches.len(),
{
    if k > 0 {
        assert(!has_participant(matches[0], address));
        assert forall|j: int| 0 <= j < k - 1 implies !has_participant(
            #[trigger] matches.drop_first()[j],
            address,
        ) by {
            assert(matches.drop_first()[j] == matches[j + 1]);
        }
        assert(matches.drop_first()[k - 1] == matches[k]);
        lemma_find_match_at(matches.drop_first(), address, k - 1);
    }
}

proof fn lemma_find_match_none(matches: Seq<MatchView>, address: u64)
    requires
        forall|j: int| 0 <= j < matches.len() ==> !has_participant(#[trigger] matches[j], address),
    ensures
        find_match(matches, address) is None,
    decreases matches.len(),
{
    if matches.len() > 0 {
        assert forall|j: int| 0 <= j < matches.drop_first().len() implies !has_participant(
            #[trigger] matches.drop_first()[j],
            address,
        ) by {
            assert(matches.drop_first()[j] == matches[j + 1]);
        }
        lemma_find_match_none(matches.drop_first(), address);
    }
}

/// A found match index is in bounds.
pub proof fn lemma_find_match_props(matches: Seq<MatchView>, address: u64)
    ensures
        match find_match(matches, address) {
            Some(i) => 0 <= i < matches.len() && has_participant(matches[i], address),
            None => true,
        },
    decreases matches.len(),
{
    if matches.len() > 0 {
        lemma_find_match_props(matches.drop_first(), address);
        match find_match(matches, address) {
            Some(i) => {
                if !has_participant(matches.first(), address) {
                    assert(matches.drop_first()[i - 1] == matches[i]);
                }
            },
            None => (),
        }
    }
}

proof fn lemma_owner_at(participants: Seq<ParticipantView>, t: Target, k: int)
    requires
        0 <= k < participants.len(),
        forall|j: int| 0 <= j < k ==> !(#[trigger] participants[j]).ownership.contains(t),
        participants[k].ownership.contains(t),
    ensures
        owner_of(participants, t) == Some(k),
    decreases participants.len(),
{
    if k > 0 {
        assert(!participants[0].ownership.contains(t));
        assert forall|j: int| 0 <= j < k - 1 implies !(#[trigger] participants.drop_first()[j]).ownership.contains(
            t,
        ) by {
            assert(participants.drop_first()[j] == participants[j + 1]);
        }
        assert(participants.drop_first()[k - 1] == participants[k]);
        lemma_owner_at(participants.drop_first(), t, k - 1);
    }
}

proof fn lemma_owner_none(participants: Seq<ParticipantView>, t: Target)
    requires
        forall|j: int|
            0 <= j < participants.len() ==> !(#[trigger] participants[j]).ownership.contains(t),
    ensures
        owner_of(participants, t) is None,
    decreases participants.len(),
{
    if participants.len() > 0 {
        assert forall|j: int|
            0 <= j < participants.drop_first().len() implies !(#[trigger] participants.drop_first()[j]).ownership.contains(
            t,
        ) by {
            assert(participants.drop_first()[j] == participants[j + 1]);
        }
        lemma_owner_none(participants.drop_first(), t);
    }
}

fn vec_contains_target(v: &Vec<Target>, t: Target) -> (r: bool)
    ensures
        r == v@.contains(t),
{
    let mut i: usize = 0;
    #[verifier::loop_isolation(false)]
    while i < v.len()
        invariant
            i <= v@.len(),
            forall|j: int| 0 <= j < i ==> v@[j] != t,
        decreases v@.len() - i,
    {
        if v[i].party_index == t.party_index && v[i].member_index == t.member_index {
            return true;
        }
        i = i + 1;
    }
    false
}

fn match_has_participant(m: &Match, address: u64) -> (r: bool)
    ensures
        r == has_participant(m@, address),
{
    let mut i: usize = 0;
    #[verifier::loop_isolation(false)]
    while i < m.participants.len()
        invariant
            i <= m@.participants.len(),
            forall|j: int| 0 <= j < i ==> (#[trigger] m@.participants[j]).address != address,
        decreases m@.participants.len() - i,
    {
        proof {
            assert(m@.participants[i as int] == m.participants@[i as int]@);
        }
        if m.participants[i].address == address {
            return true;
        }
        i = i + 1;
    }
    false
}

fn find_owner(participants: &Vec<Participant>, t: Target) -> (r: Option<usize>)
    ensures
        match r {
            Some(k) => k < participants@.len() && owner_of(
                participants@.map_values(|p: Participant| p@),
                t,
            ) == Some(k as int),
            None => owner_of(participants@.map_values(|p: Participant| p@), t) is None,
        },
{
    let ghost pv = participants@.map_values(|p: Participant| p@);
    let mut i: usize = 0;
    #[verifier::loop_isolation(false)]
    while i < participants.len()
        invariant
            i <= pv.len(),
            forall|j: int| 0 <= j < i ==> !(#[trigger] pv[j]).ownership.contains(t),
        decreases pv.len() - i,
    {
        proof {
            assert(pv[i as int] == participants@[i as int]@);
        }
        if vec_contains_target(&participants[i].ownership, t) {
            proof {
                lemma_owner_at(pv, t, i as int);
            }
            return Some(i);
        }
        i = i + 1;
    }
    proof {
        lemma_owner_none(pv, t);
    }
    None
}

impl Server {
    fn scan_match(&self, address: u64) -> (r: Option<usize>)
        ensures
            match r {
                Some(mi) => find_match(self@.matches, address) == Some(mi as int),
                None => find_match(self@.matches, address) is None,
            },
    {
        let ghost mv = self@.matches;
        let mut i: usize = 0;
        #[verifier::loop_isolation(false)]
        while i < self.matches.len()
            invariant
                i <= mv.len(),
                forall|j: int| 0 <= j < i ==> !has_participant(#[trigger] mv[j], address),
            decreases mv.len() - i,
        {
            proof {
                assert(mv[i as int] == self.matches@[i as int]@);
            }
            if match_has_participant(&self.matches[i], address) {
                proof {
                    lemma_find_match_at(mv, address, i as int);
                }
                return Some(i);
            }
            i = i + 1;
        }
        proof {
            lemma_find_match_none(mv, address);
        }
        None
    }

    fn client_known(&self, address: u64) -> (r: bool)
        ensures
            r == self@.clients.contains(address),
    {
        let mut i: usize = 0;
        #[verifier::loop_isolation(false)]
        while i < self.clients.len()
            invariant
                i <= self@.clients.len(),
                forall|j: int| 0 <= j < i ==> self@.clients[j] != address,
            decreases self@.clients.len() - i,
        {
            if self.clients[i] == address {
                return true;
            }
            i = i + 1;
        }
        false
    }
}

/// The first participant whose ownership set holds `t`, if any.
pub open spec fn owner_of(participants: Seq<ParticipantView>, t: Target) -> Option<int>
    decreases participants.len(),
{
    if participants.len() == 0 {
        None
    } else if participants.first().ownership.contains(t) {
        Some(0)
    } else {
        match owner_of(participants.drop_first(), t) {
            Some(i) => Some(i + 1),
            None => None,
        }
    }
}

/// The event broadcast: the identical envelope to every participant, then
/// to every spectator.
pub open spec fn broadcast_event(m: MatchView, payload: Seq<u8>) -> Seq<OutboundView> {
    Seq::new(
        m.participants.len(),
        |i: int|
            OutboundView {
                address: m.participants[i].address,
                message: MessageView { type_: MessageType::CombatEvent, payload },
            },
    ) + Seq::new(
        m.spectators.len(),
        |i: int|
            OutboundView {
                address: m.spectators[i],
                message: MessageView { type_: MessageType::CombatEvent, payload },
            },
    )
}

/// Every match's combatants and every queued party resolve their
/// identifiers in the store, so combat events can always be applied and
/// freshly created matches start well-formed.
pub open spec fn server_wf(sv: ServerView, store: ContentStoreView) -> bool {
    &&& forall|i: int|
        0 <= i < sv.matches.len() ==> state_ids_wf((#[trigger] sv.matches[i]).combat_state, store)
    &&& forall|i: int|
        0 <= i < sv.ready_clients.len() ==> party_ids_wf(
            (#[trigger] sv.ready_clients[i]).party,
            store,
        )
}

/// The targets of `state` whose party index is `party_index`, in order.
pub open spec fn ownership_of(state: Seq<PartyView>, party_index: usize) -> Seq<Target> {
    spec_target_list(state).filter(|t: Target| t.party_index == party_index)
}

impl Server {
    /// A fresh orchestrator with no clients, no ready pool and no matches.
    pub fn new() -> (r: Server)
        ensures
            r@.clients == Seq::<u64>::empty(),
            r@.ready_clients == Seq::<ReadyClientView>::empty(),
            r@.matches == Seq::<MatchView>::empty(),
    {
        let r = Server { clients: Vec::new(), ready_clients: Vec::new(), matches: Vec::new() };
        proof {
            assert(r@.ready_clients =~= Seq::<ReadyClientView>::empty());
            assert(r@.matches =~= Seq::<MatchView>::empty());
        }
        r
    }

    /// Records a transport-level connection; only connected addresses may
    /// later queue a party.
    pub fn on_connect(&mut self, address: u64)
        ensures
            final(self)@.clients == old(self)@.clients.push(address),
            final(self)@.ready_clients == old(self)@.ready_clients,
            final(self)@.matches == old(self)@.matches,
    {
        self.clients.push(address);
        proof {
            assert(final(self)@.ready_clients =~= old(self)@.ready_clients);
            assert(final(self)@.matches =~= old(self)@.matches);
        }
    }
}

/// The turn prompt for `t`.
pub open spec fn take_turn_message(t: Target) -> MessageView {
    MessageView { type_: MessageType::TakeTurn, payload: enc_take_turn(TakeTurn { target: t }) }
}

/// An unknown address sent a handshake: it is echoed a zero protocol
/// version; anything else from an unknown address is ignored.
pub open spec fn handshake_step(
    sv: ServerView,
    sv2: ServerView,
    out: Seq<OutboundView>,
    err: Option<ServerError>,
    address: u64,
    m: MessageView,
) -> bool {
    &&& sv2 == sv
    &&& err is None
    &&& if m.type_ == MessageType::ProtocolVersion {
        out == seq![
            OutboundView {
                address,
                message: MessageView {
                    type_: MessageType::ProtocolVersion,
                    payload: enc_protocol_version(ProtocolVersion(0)),
                },
            },
        ]
    } else {
        out == Seq::<OutboundView>::empty()
    }
}

/// The ready pool was empty: the client is queued and nothing is sent.
pub open spec fn party_queued_step(
    sv: ServerView,
    sv2: ServerView,
    out: Seq<OutboundView>,
    err: Option<ServerError>,
    address: u64,
    p: PartyView,
) -> bool {
    &&& sv.ready_clients.len() == 0
    &&& sv2 == (ServerView {
        ready_clients: sv.ready_clients.push(ReadyClientView { address, party: p }),
        ..sv
    })
    &&& out == Seq::<OutboundView>::empty()
    &&& err is None
}

/// The derived contents of a freshly created match and its announcements:
/// the initial state is the partner's party followed by the new client's,
/// both clients receive it, ownership is partitioned by party index, and
/// the scheduler's first pick is routed to its owner.
pub open spec fn created_match(
    partner: ReadyClientView,
    address: u64,
    p: PartyView,
    mv: MatchView,
    out: Seq<OutboundView>,
    err: Option<ServerError>,
) -> bool {
    let state0 = seq![partner.party, p];
    let participants = seq![
        ParticipantView { address: partner.address, ownership: ownership_of(state0, 0) },
        ParticipantView { address, ownership: ownership_of(state0, 1) },
    ];
    let state_message = MessageView {
        type_: MessageType::CombatState,
        payload: enc_combat_state(state0),
    };
    let base_out = seq![
        OutboundView { address: partner.address, message: state_message },
        OutboundView { address, message: state_message },
    ];
    &&& mv.participants == participants
    &&& mv.spectators == Seq::<u64>::empty()
    &&& if schedulable(state0) {
        let t = next_turn(state0).0;
        &&& mv.combat_state == next_turn(state0).1
        &&& match owner_of(participants, t) {
            Some(oi) => out == base_out.push(
                OutboundView { address: participants[oi].address, message: take_turn_message(t) },
            ) && err is None,
            None => out == base_out && err == Some(ServerError::UnownedTurnTarget),
        }
    } else {
        &&& mv.combat_state == state0
        &&& out == base_out
        &&& err == Some(ServerError::Unschedulable)
    }
}

/// The ready pool held a partner: the two most recently queued clients are
/// paired; only a new match is appended and the partner leaves the pool.
pub open spec fn match_created_step(
    sv: ServerView,
    sv2: ServerView,
    out: Seq<OutboundView>,
    err: Option<ServerError>,
    address: u64,
    p: PartyView,
) -> bool {
    &&& sv.ready_clients.len() >= 1
    &&& sv2.clients == sv.clients
    &&& sv2.ready_clients == sv.ready_clients.drop_last()
    &&& sv2.matches.len() == sv.matches.len() + 1
    &&& forall|k: int| 0 <= k < sv.matches.len() ==> sv2.matches[k] == #[trigger] sv.matches[k]
    &&& created_match(sv.ready_clients.last(), address, p, sv2.matches.last(), out, err)
}

/// A participant submitted a combat event: the event is broadcast
/// (re-encoded canonically) to every participant and spectator, applied to
/// the authoritative state, and the next turn prompt is routed to the owner
/// of the scheduler's pick.
pub open spec fn match_step(
    mv: MatchView,
    mv2: MatchView,
    out: Seq<OutboundView>,
    err: Option<ServerError>,
    store: ContentStoreView,
    e: CombatEvent,
) -> bool {
    let state1 = event_processed(mv.combat_state, store, e);
    let bcast = broadcast_event(mv, enc_combat_event(e@));
    &&& mv2.participants == mv.participants
    &&& mv2.spectators == mv.spectators
    &&& if schedulable(state1) {
        let t = next_turn(state1).0;
        &&& mv2.combat_state == next_turn(state1).1
        &&& match owner_of(mv.participants, t) {
            Some(oi) => out == bcast.push(
                OutboundView { address: mv.participants[oi].address, message: take_turn_message(t) },
            ) && err is None,
            None => out == bcast && err == Some(ServerError::UnownedTurnTarget),
        }
    } else {
        &&& mv2.combat_state == state1
        &&& out == bcast
        &&& err == Some(ServerError::Unschedulable)
    }
}

/// The whole-server effect of one applied combat event: only the addressed
/// match changes, and it changes by [`match_step`].
pub open spec fn event_applied_step(
    sv: ServerView,
    sv2: ServerView,
    out: Seq<OutboundView>,
    err: Option<ServerError>,
    store: ContentStoreView,
    mi: int,
    e: CombatEvent,
) -> bool {
    &&& 0 <= mi < sv.matches.len()
    &&& event_wf(e, sv.matches[mi].combat_state, store)
    &&& match_step(sv.matches[mi], sv2.matches[mi], out, err, store, e)
    &&& sv2.matches.len() == sv.matches.len()
    &&& forall|k: int| 0 <= k < sv.matches.len() && k != mi ==> sv2.matches[k] == #[trigger] sv.matches[k]
    &&& sv2.clients == sv.clients
    &&& sv2.ready_clients == sv.ready_clients
}

/// Builds the broadcast of one event to every participant and spectator of
/// `m`, in that order, re-encoding the event canonically.
fn build_broadcast(m: &Match, event: &CombatEvent) -> (out: Vec<Outbound>)
    ensures
        out@.map_values(|o: Outbound| o@) == broadcast_event(m@, enc_combat_event(event@)),
{
    let ghost payload = enc_combat_event(event@);
    let mut outgoing: Vec<Outbound> = Vec::new();
    let mut i: usize = 0;
    #[verifier::loop_isolation(false)]
    while i < m.participants.len()
        invariant
            i <= m@.participants.len(),
            outgoing@.len() == i,
            forall|k: int|
                0 <= k < i ==> (#[trigger] outgoing@[k])@ == (OutboundView {
                    address: m@.participants[k].address,
                    message: MessageView { type_: MessageType::CombatEvent, payload },
                }),
        decreases m@.participants.len() - i,
    {
        proof {
            assert(m@.participants[i as int] == m.participants@[i as int]@);
        }
        let address = m.participants[i].address;
        let em = encode_combat_event(event);
        outgoing.push(Outbound { address, message: em });
        i = i + 1;
    }
    let mut j: usize = 0;
    #[verifier::loop_isolation(false)]
    while j < m.spectators.len()
        invariant
            j <= m@.spectators.len(),
            outgoing@.len() == m@.participants.len() + j,
            forall|k: int|
                0 <= k < m@.participants.len() ==> (#[trigger] outgoing@[k])@ == (OutboundView {
                    address: m@.participants[k].address,
                    message: MessageView { type_: MessageType::CombatEvent, payload },
                }),
            forall|k: int|
                0 <= k < j ==> (#[trigger] outgoing@[m@.participants.len() + k])@ == (OutboundView {
                    address: m@.spectators[k],
                    message: MessageView { type_: MessageType::CombatEvent, payload },
                }),
        decreases m@.spectators.len() - j,
    {
        let address = m.spectators[j];
        let em = encode_combat_event(event);
        outgoing.push(Outbound { address, message: em });
        j = j + 1;
    }
    proof {
        let mapped = outgoing@.map_values(|o: Outbound| o@);
        let bcast = broadcast_event(m@, payload);
        assert forall|k: int| 0 <= k < mapped.len() implies mapped[k] == bcast[k] by {
            assert(mapped[k] == outgoing@[k]@);
            if k < m@.participants.len() {
                assert(bcast[k] == (OutboundView {
                    address: m@.participants[k].address,
                    message: MessageView { type_: MessageType::CombatEvent, payload },
                }));
            } else {
                let k2 = k - m@.participants.len();
                assert((outgoing@[m@.participants.len() + k2])@ == (OutboundView {
                    address: m@.spectators[k2],
                    message: MessageView { type_: MessageType::CombatEvent, payload },
                }));
                assert(bcast[k] == (OutboundView {
                    address: m@.spectators[k2],
                    message: MessageView { type_: MessageType::CombatEvent, payload },
                }));
            }
        }
        assert(mapped =~= bcast);
    }
    outgoing
}

/// Applies one decoded, well-formed event to a match: broadcast, apply,
/// schedule, route.
fn step_match(m: &mut Match, store: &ContentStore, event: &CombatEvent) -> (r: (
    Vec<Outbound>,
    Option<ServerError>,
))
    requires
        state_ids_wf(old(m)@.combat_state, store@),
        store_wf(store@),
        event_wf(*event, old(m)@.combat_state, store@),
    ensures
        state_ids_wf(final(m)@.combat_state, store@),
        match_step(
            old(m)@,
            final(m)@,
            r.0@.map_values(|o: Outbound| o@),
            r.1,
            store@,
            *event,
        ),
{
    let ghost mv = m@;
    let mut outgoing = build_broadcast(m, event);
    m.combat_state.process_event(store, event);
    let ghost state1 = event_processed(mv.combat_state, store@, *event);
    proof {
        crate::combat_state::lemma_event_processed_ids_wf(mv.combat_state, store@, *event);
        assert(m@.combat_state == state1);
    }
    if m.combat_state.check_schedulable() {
        proof {
            crate::combat_state::lemma_state_lens_bounded(m.combat_state);
        }
        let t = m.combat_state.next_combatant();
        proof {
            crate::combat_state::lemma_next_turn_ids_wf(state1, store@);
        }
        let owner = find_owner(&m.participants, t);
        match owner {
            Some(oi) => {
                proof {
                    assert(m.participants@.map_values(|p: Participant| p@) =~= mv.participants);
                }
                let address = m.participants[oi].address;
                outgoing.push(
                    Outbound { address, message: encode_take_turn(&TakeTurn { target: t }) },
                );
                proof {
                    assert(outgoing@.map_values(|o: Outbound| o@) =~= broadcast_event(
                        mv,
                        enc_combat_event(event@),
                    ).push(
                        OutboundView {
                            address: mv.participants[oi as int].address,
                            message: take_turn_message(t),
                        },
                    ));
                }
                (outgoing, None)
            },
            None => {
                proof {
                    assert(m.participants@.map_values(|p: Participant| p@) =~= mv.participants);
                }
                (outgoing, Some(ServerError::UnownedTurnTarget))
            },
        }
    } else {
        (outgoing, Some(ServerError::Unschedulable))
    }
}

impl Server {
    /// Handles a combat event from a participant of match `mi`.
    fn handle_event_in_match(
        &mut self,
        store: &ContentStore,
        mi: usize,
        message: &Message,
    ) -> (r: (Vec<Outbound>, Option<ServerError>))
        requires
            server_wf(old(self)@, store@),
            store_wf(store@),
            mi < old(self)@.matches.len(),
            message@.type_ == MessageType::CombatEvent,
        ensures
            server_wf(final(self)@, store@),
            r.1 == Some(ServerError::MalformedPayload) <==> decode_event_payload(
                message@.payload,
            ) is None,
            r.1 == Some(ServerError::InvalidEvent) <==> (match decode_event_payload(
                message@.payload,
            ) {
                Some(ev) => !event_view_wf(
                    ev,
                    old(self)@.matches[mi as int].combat_state,
                    store@,
                ),
                None => false,
            }),
            (r.1 == Some(ServerError::MalformedPayload) || r.1 == Some(ServerError::InvalidEvent))
                ==> final(self)@ == old(self)@ && r.0@.len() == 0,
            !(r.1 == Some(ServerError::MalformedPayload) || r.1 == Some(
                ServerError::InvalidEvent,
            )) ==> exists|e: CombatEvent|
                #[trigger] event_wf(e, old(self)@.matches[mi as int].combat_state, store@)
                    && decode_event_payload(message@.payload) == Some(e@) && event_applied_step(
                    old(self)@,
                    final(self)@,
                    r.0@.map_values(|o: Outbound| o@),
                    r.1,
                    store@,
                    mi as int,
                    e,
                ),
    {
        let ghost sv = self@;
        let event = match decode_combat_event(message) {
            Some(e) => e,
            None => {
                let out: Vec<Outbound> = Vec::new();
                proof {
                    assert(final(self)@ =~= old(self)@);
                }
                return (out, Some(ServerError::MalformedPayload));
            },
        };
        proof {
            assert(self@.matches[mi as int] == self.matches@[mi as int]@);
        }
        if !self.matches[mi].combat_state.check_event(store, &event) {
            let out: Vec<Outbound> = Vec::new();
            proof {
                assert(final(self)@ =~= old(self)@);
            }
            return (out, Some(ServerError::InvalidEvent));
        }
        let (outgoing, error) = step_match(&mut self.matches[mi], store, &event);
        proof {
            assert forall|k: int| 0 <= k < sv.matches.len() && k != mi implies self@.matches[k]
                == #[trigger] sv.matches[k] by {
                assert(self@.matches[k] == self.matches@[k]@);
            }
            assert(self@.matches[mi as int] == self.matches@[mi as int]@);
            assert(self@.matches.len() == sv.matches.len());
            assert(self@.clients == sv.clients);
            assert(self@.ready_clients =~= sv.ready_clients);
            assert(event_applied_step(
                sv,
                self@,
                outgoing@.map_values(|o: Outbound| o@),
                error,
                store@,
                mi as int,
                event,
            ));
            assert forall|k: int| 0 <= k < self@.matches.len() implies state_ids_wf(
                (#[trigger] self@.matches[k]).combat_state,
                store@,
            ) by {
                if k != mi {
                    assert(self@.matches[k] == sv.matches[k]);
                }
            }
        }
        (outgoing, error)
    }
}

/// The targets of `state` owned by the party at `party_index`, in order.
fn partition_ownership(state: &CombatState, party_index: usize) -> (r: Vec<Target>)
    ensures
        r@ == ownership_of(state@, party_index),
{
    let list = state.get_target_list();
    let mut acc: Vec<Target> = Vec::new();
    let mut k: usize = 0;
    proof {
        reveal(Seq::filter);
        assert(spec_target_list(state@).subrange(0, 0).filter(
            |t: Target| t.party_index == party_index,
        ) =~= Seq::<Target>::empty());
    }
    #[verifier::loop_isolation(false)]
    while k < list.len()
        invariant
            k <= list@.len(),
            list@ == spec_target_list(state@),
            acc@ == spec_target_list(state@).subrange(0, k as int).filter(
                |t: Target| t.party_index == party_index,
            ),
        decreases list@.len() - k,
    {
        let t = list[k];
        proof {
            reveal(Seq::filter);
            let pred = |t2: Target| t2.party_index == party_index;
            let pref1 = spec_target_list(state@).subrange(0, k as int + 1);
            assert(pref1.drop_last() =~= spec_target_list(state@).subrange(0, k as int));
            assert(pref1.last() == list@[k as int]);
            if pred(list@[k as int]) {
                assert(pref1.filter(pred) == pref1.drop_last().filter(pred).push(pref1.last()));
            } else {
                assert(pref1.filter(pred) == pref1.drop_last().filter(pred));
            }
        }
        if t.party_index == party_index {
            acc.push(t);
        }
        k = k + 1;
    }
    proof {
        assert(spec_target_list(state@).subrange(0, spec_target_list(state@).len() as int)
            =~= spec_target_list(state@));
    }
    acc
}

/// Builds the match for a freshly paired pair of clients, together with
/// the messages announcing it.
#[verifier::rlimit(100)]
fn build_match(store: &ContentStore, partner: ReadyClient, address: u64, party: Party) -> (r: (
    Match,
    Vec<Outbound>,
    Option<ServerError>,
))
    requires
        store_wf(store@),
        party_ids_wf(partner@.party, store@),
        party_ids_wf(party@, store@),
    ensures
        state_ids_wf(r.0@.combat_state, store@),
        created_match(partner@, address, party@, r.0@, r.1@.map_values(|o: Outbound| o@), r.2),
{
    let ghost partner_view = partner@;
    let ghost pv = party@;
    let partner_address = partner.address;
    let mut parties: Vec<Party> = Vec::new();
    parties.push(partner.party);
    parties.push(party);
    let combat_state = CombatState { parties };
    let ghost state0 = seq![partner_view.party, pv];
    proof {
        assert(combat_state@ =~= state0);
        assert forall|p: int, m: int|
            0 <= p < state0.len() && 0 <= m < state0[p].members.len() implies
            crate::combatant::combatant_ids_wf(#[trigger] state0[p].members[m], store@) by {
            if p == 0 {
                assert(party_ids_wf(partner_view.party, store@));
            } else {
                assert(p == 1);
            }
        }
        assert(state_ids_wf(state0, store@));
    }
    let mut outgoing: Vec<Outbound> = Vec::new();
    let state_message_1 = encode_combat_state(&combat_state);
    outgoing.push(Outbound { address: partner_address, message: state_message_1 });
    let state_message_2 = encode_combat_state(&combat_state);
    outgoing.push(Outbound { address, message: state_message_2 });
    let ownership_1 = partition_ownership(&combat_state, 0);
    let ownership_2 = partition_ownership(&combat_state, 1);
    let mut participants: Vec<Participant> = Vec::new();
    participants.push(Participant { address: partner_address, ownership: ownership_1 });
    participants.push(Participant { address, ownership: ownership_2 });
    let ghost participants_view = seq![
        ParticipantView { address: partner_view.address, ownership: ownership_of(state0, 0) },
        ParticipantView { address, ownership: ownership_of(state0, 1) },
    ];
    let mut new_match = Match { participants, spectators: Vec::new(), combat_state };
    proof {
        assert(new_match@.participants =~= participants_view);
        assert(new_match@.spectators =~= Seq::<u64>::empty());
        assert(new_match@.combat_state == state0);
    }
    let ghost base_out = seq![
        OutboundView {
            address: partner_view.address,
            message: MessageView {
                type_: MessageType::CombatState,
                payload: enc_combat_state(state0),
            },
        },
        OutboundView {
            address,
            message: MessageView {
                type_: MessageType::CombatState,
                payload: enc_combat_state(state0),
            },
        },
    ];
    proof {
        assert(outgoing@.map_values(|o: Outbound| o@) =~= base_out);
    }
    let error: Option<ServerError>;
    if new_match.combat_state.check_schedulable() {
        proof {
            crate::combat_state::lemma_state_lens_bounded(new_match.combat_state);
        }
        let t = new_match.combat_state.next_combatant();
        proof {
            crate::combat_state::lemma_next_turn_ids_wf(state0, store@);
            assert(new_match@.combat_state == next_turn(state0).1);
            assert(new_match@.participants =~= participants_view);
        }
        let owner = find_owner(&new_match.participants, t);
        match owner {
            Some(oi) => {
                proof {
                    assert(new_match.participants@.map_values(|p2: Participant| p2@)
                        =~= participants_view);
                }
                let owner_address = new_match.participants[oi].address;
                outgoing.push(
                    Outbound {
                        address: owner_address,
                        message: encode_take_turn(&TakeTurn { target: t }),
                    },
                );
                proof {
                    assert(outgoing@.map_values(|o: Outbound| o@) =~= base_out.push(
                        OutboundView {
                            address: participants_view[oi as int].address,
                            message: take_turn_message(t),
                        },
                    ));
                }
                error = None;
            },
            None => {
                proof {
                    assert(new_match.participants@.map_values(|p2: Participant| p2@)
                        =~= participants_view);
                }
                error = Some(ServerError::UnownedTurnTarget);
            },
        }
    } else {
        error = Some(ServerError::Unschedulable);
    }
    (new_match, outgoing, error)
}

impl Server {
    /// Queues a validated party when the ready pool is empty.
    #[verifier::rlimit(100)]
    fn queue_party(&mut self, store: &ContentStore, address: u64, party: Party)
        requires
            server_wf(old(self)@, store@),
            party_ids_wf(party@, store@),
            old(self)@.ready_clients.len() == 0,
        ensures
            server_wf(final(self)@, store@),
            party_queued_step(
                old(self)@,
                final(self)@,
                Seq::<OutboundView>::empty(),
                None::<ServerError>,
                address,
                party@,
            ),
    {
        let ghost sv = self@;
        let ghost pv = party@;
        self.ready_clients.push(ReadyClient { address, party });
        proof {
            assert(self@.ready_clients =~= sv.ready_clients.push(
                ReadyClientView { address, party: pv },
            ));
            assert(self@.matches =~= sv.matches);
            assert(self@ =~= (ServerView {
                ready_clients: sv.ready_clients.push(ReadyClientView { address, party: pv }),
                ..sv
            }));
            assert forall|i: int| 0 <= i < self@.ready_clients.len() implies party_ids_wf(
                (#[trigger] self@.ready_clients[i]).party,
                store@,
            ) by {
                if i < sv.ready_clients.len() {
                    assert(self@.ready_clients[i] == sv.ready_clients[i]);
                }
            }
            assert forall|i: int| 0 <= i < self@.matches.len() implies state_ids_wf(
                (#[trigger] self@.matches[i]).combat_state,
                store@,
            ) by {
                assert(self@.matches[i] == sv.matches[i]);
            }
        }
    }

    /// Pairs a validated party with the most recently queued client.
    #[verifier::rlimit(100)]
    fn pair_party(&mut self, store: &ContentStore, address: u64, party: Party) -> (r: (
        Vec<Outbound>,
        Option<ServerError>,
    ))
        requires
            server_wf(old(self)@, store@),
            store_wf(store@),
            party_ids_wf(party@, store@),
            old(self)@.ready_clients.len() >= 1,
        ensures
            server_wf(final(self)@, store@),
            match_created_step(
                old(self)@,
                final(self)@,
                r.0@.map_values(|o: Outbound| o@),
                r.1,
                address,
                party@,
            ),
    {
        let ghost sv = self@;
        let ghost pv = party@;
        let partner = match self.ready_clients.pop() {
            Some(p) => p,
            None => vstd::pervasive::unreached(),
        };
        let ghost partner_view = sv.ready_clients.last();
        proof {
            assert(partner@ == partner_view);
            assert(self@.ready_clients =~= sv.ready_clients.drop_last());
        }
        let (new_match, outgoing, error) = build_match(store, partner, address, party);
        let ghost match_view = new_match@;
        self.matches.push(new_match);
        proof {
            assert(self@.matches =~= sv.matches.push(match_view));
            assert(self@.ready_clients =~= sv.ready_clients.drop_last());
            assert(self@.clients == sv.clients);
            assert forall|k: int| 0 <= k < sv.matches.len() implies self@.matches[k]
                == #[trigger] sv.matches[k] by {
            }
            assert(self@.matches.last() == match_view);
            assert forall|i: int| 0 <= i < self@.matches.len() implies state_ids_wf(
                (#[trigger] self@.matches[i]).combat_state,
                store@,
            ) by {
                if i < sv.matches.len() {
                    assert(self@.matches[i] == sv.matches[i]);
                }
            }
            assert forall|i: int| 0 <= i < self@.ready_clients.len() implies party_ids_wf(
                (#[trigger] self@.ready_clients[i]).party,
                store@,
            ) by {
                assert(self@.ready_clients[i] == sv.ready_clients[i]);
            }
        }
        (outgoing, error)
    }

    /// Handles a party submission from a connected client that is in no
    /// match yet: the party is validated and queued, and as soon as two
    /// clients wait, the two most recently queued are paired into a match.
    fn handle_party_message(
        &mut self,
        store: &ContentStore,
        address: u64,
        message: &Message,
    ) -> (r: (Vec<Outbound>, Option<ServerError>))
        requires
            server_wf(old(self)@, store@),
            store_wf(store@),
            message@.type_ == MessageType::Party,
        ensures
            server_wf(final(self)@, store@),
            r.1 == Some(ServerError::MalformedPayload) <==> decode_party_payload(
                message@.payload,
            ) is None,
            r.1 == Some(ServerError::RejectedParty) <==> (match decode_party_payload(
                message@.payload,
            ) {
                Some(pv) => !party_ids_wf(pv, store@),
                None => false,
            }),
            (r.1 == Some(ServerError::MalformedPayload) || r.1 == Some(ServerError::RejectedParty))
                ==> final(self)@ == old(self)@ && r.0@.len() == 0,
            !(r.1 == Some(ServerError::MalformedPayload) || r.1 == Some(
                ServerError::RejectedParty,
            )) ==> exists|pv: PartyView|
                #[trigger] party_ids_wf(pv, store@) && message@.payload == enc_party(pv)
                    && decode_party_payload(message@.payload) == Some(pv) && (party_queued_step(
                    old(self)@,
                    final(self)@,
                    r.0@.map_values(|o: Outbound| o@),
                    r.1,
                    address,
                    pv,
                ) || match_created_step(
                    old(self)@,
                    final(self)@,
                    r.0@.map_values(|o: Outbound| o@),
                    r.1,
                    address,
                    pv,
                )),
    {
        let party = match decode_party(message) {
            Some(p) => p,
            None => {
                let out: Vec<Outbound> = Vec::new();
                proof {
                    assert(final(self)@ =~= old(self)@);
                }
                return (out, Some(ServerError::MalformedPayload));
            },
        };
        if !check_party_ids(&party, store) {
            let out: Vec<Outbound> = Vec::new();
            proof {
                assert(final(self)@ =~= old(self)@);
            }
            return (out, Some(ServerError::RejectedParty));
        }
        let ghost pv = party@;
        if self.ready_clients.len() == 0 {
            self.queue_party(store, address, party);
            let out: Vec<Outbound> = Vec::new();
            proof {
                assert(out@.map_values(|o: Outbound| o@) =~= Seq::<OutboundView>::empty());
            }
            (out, None)
        } else {
            self.pair_party(store, address, party)
        }
    }

    /// Routes one received envelope: events from match participants are
    /// applied and fanned out, party submissions from connected clients are
    /// queued or paired, and handshakes from unknown addresses are echoed.
    /// A dropped message is always reported through the returned error.
    pub fn handle_message(
        &mut self,
        store: &ContentStore,
        address: u64,
        message: &Message,
    ) -> (r: (Vec<Outbound>, Option<ServerError>))
        requires
            server_wf(old(self)@, store@),
            store_wf(store@),
        ensures
            server_wf(final(self)@, store@),
            match find_match(old(self)@.matches, address) {
                Some(mi) => if message@.type_ == MessageType::CombatEvent {
                    &&& (r.1 == Some(ServerError::MalformedPayload) <==> decode_event_payload(
                        message@.payload,
                    ) is None)
                    &&& (r.1 == Some(ServerError::InvalidEvent) <==> (match decode_event_payload(
                        message@.payload,
                    ) {
                        Some(ev) => !event_view_wf(
                            ev,
                            old(self)@.matches[mi].combat_state,
                            store@,
                        ),
                        None => false,
                    }))
                    &&& (r.1 == Some(ServerError::MalformedPayload) || r.1 == Some(
                        ServerError::InvalidEvent,
                    )) ==> final(self)@ == old(self)@ && r.0@.len() == 0
                    &&& !(r.1 == Some(ServerError::MalformedPayload) || r.1 == Some(
                        ServerError::InvalidEvent,
                    )) ==> exists|e: CombatEvent|
                        #[trigger] event_wf(e, old(self)@.matches[mi].combat_state, store@)
                            && decode_event_payload(message@.payload) == Some(e@)
                            && event_applied_step(
                            old(self)@,
                            final(self)@,
                            r.0@.map_values(|o: Outbound| o@),
                            r.1,
                            store@,
                            mi,
                            e,
                        )
                } else {
                    final(self)@ == old(self)@ && r.0@.len() == 0 && r.1 is None
                },
                None => if old(self)@.clients.contains(address) {
                    if message@.type_ == MessageType::Party {
                        &&& (r.1 == Some(ServerError::MalformedPayload) <==> decode_party_payload(
                            message@.payload,
                        ) is None)
                        &&& (r.1 == Some(ServerError::RejectedParty) <==> (match decode_party_payload(
                            message@.payload,
                        ) {
                            Some(pv) => !party_ids_wf(pv, store@),
                            None => false,
                        }))
                        &&& (r.1 == Some(ServerError::MalformedPayload) || r.1 == Some(
                            ServerError::RejectedParty,
                        )) ==> final(self)@ == old(self)@ && r.0@.len() == 0
                        &&& !(r.1 == Some(ServerError::MalformedPayload) || r.1 == Some(
                            ServerError::RejectedParty,
                        )) ==> exists|pv: PartyView|
                            #[trigger] party_ids_wf(pv, store@) && message@.payload == enc_party(pv)
                                && decode_party_payload(message@.payload) == Some(pv) && (
                            party_queued_step(
                                old(self)@,
                                final(self)@,
                                r.0@.map_values(|o: Outbound| o@),
                                r.1,
                                address,
                                pv,
                            ) || match_created_step(
                                old(self)@,
                                final(self)@,
                                r.0@.map_values(|o: Outbound| o@),
                                r.1,
                                address,
                                pv,
                            ))
                    } else {
                        final(self)@ == old(self)@ && r.0@.len() == 0 && r.1 is None
                    }
                } else {
                    handshake_step(
                        old(self)@,
                        final(self)@,
                        r.0@.map_values(|o: Outbound| o@),
                        r.1,
                        address,
                        message@,
                    )
                },
            },
    {
        let scan = self.scan_match(address);
        match scan {
            Some(mi) => {
                proof {
                    lemma_find_match_props(self@.matches, address);
                }
                if matches!(message.type_, MessageType::CombatEvent) {
                    self.handle_event_in_match(store, mi, message)
                } else {
                    let out: Vec<Outbound> = Vec::new();
                    proof {
                        assert(final(self)@ =~= old(self)@);
                    }
                    (out, None)
                }
            },
            None => {
                if self.client_known(address) {
                    if matches!(message.type_, MessageType::Party) {
                        self.handle_party_message(store, address, message)
                    } else {
                        let out: Vec<Outbound> = Vec::new();
                        proof {
                            assert(final(self)@ =~= old(self)@);
                        }
                        (out, None)
                    }
                } else {
                    let mut out: Vec<Outbound> = Vec::new();
                    if matches!(message.type_, MessageType::ProtocolVersion) {
                        let reply = encode_protocol_version(&ProtocolVersion(0));
                        out.push(Outbound { address, message: reply });
                        proof {
                            assert(out@.map_values(|o: Outbound| o@) =~= seq![
                                OutboundView {
                                    address,
                                    message: MessageView {
                                        type_: MessageType::ProtocolVersion,
                                        payload: enc_protocol_version(ProtocolVersion(0)),
                                    },
                                },
                            ]);
                        }
                    } else {
                        proof {
                            assert(out@.map_values(|o: Outbound| o@) =~= Seq::<
                                OutboundView,
                            >::empty());
                        }
                    }
                    proof {
                        assert(final(self)@ =~= old(self)@);
                    }
                    (out, None)
                }
            },
        }
    }
}

} // verus!
