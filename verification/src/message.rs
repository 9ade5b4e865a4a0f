//! The tagged binary envelope carrying every protocol payload.

use vstd::prelude::*;

use crate::target::Target;

verus! {

/// The application handshake payload. The version number is transmitted but
/// not currently validated by either peer.
#[derive(Clone, Copy, Debug, Eq, PartialEq, Structural)]
pub struct ProtocolVersion(pub u32);

/// Tells a participant which combatant it must act for.
#[derive(Clone, Copy, Debug, Eq, PartialEq, Structural)]
pub struct TakeTurn {
    pub target: Target,
}

/// Announces the end of a match.
#[derive(Clone, Copy, Debug, Eq, PartialEq, Structural)]
pub struct Victory;

/// The payload kind of a message. Each kind has a stable one-byte wire tag
/// (see [`MessageType::tag`]) that must never be renumbered once shipped:
/// the tag alone decides how a payload is decoded.
#[derive(Clone, Copy, Debug, Eq, PartialEq, Structural)]
pub enum MessageType {
    ProtocolVersion,
    CombatState,
    TakeTurn,
    CombatEvent,
    Victory,
    Party,
}

/// The stable wire tag of each payload kind.
pub open spec fn tag_of(t: MessageType) -> u8 {
    match t {
        MessageType::ProtocolVersion => 1,
        MessageType::CombatState => 20,
        MessageType::TakeTurn => 22,
        MessageType::CombatEvent => 23,
        MessageType::Victory => 30,
        MessageType::Party => 255,
    }
}

/// The payload kind a wire tag stands for, if any.
pub open spec fn type_of_tag(tag: u8) -> Option<MessageType> {
    if tag == 1 {
        Some(MessageType::ProtocolVersion)
    } else if tag == 20 {
        Some(MessageType::CombatState)
    } else if tag == 22 {
        Some(MessageType::TakeTurn)
    } else if tag == 23 {
        Some(MessageType::CombatEvent)
    } else if tag == 30 {
        Some(MessageType::Victory)
    } else if tag == 255 {
        Some(MessageType::Party)
    } else {
        None
    }
}

/// Tags determine their payload kind uniquely in both directions.
pub proof fn lemma_tag_round_trip(t: MessageType)
    ensures
        type_of_tag(tag_of(t)) == Some(t),
{
}

impl MessageType {
    pub fn tag(&self) -> (r: u8)
        ensures
            r == tag_of(*self),
    {
        match self {
            MessageType::ProtocolVersion => 1,
            MessageType::CombatState => 20,
            MessageType::TakeTurn => 22,
            MessageType::CombatEvent => 23,
            MessageType::Victory => 30,
            MessageType::Party => 255,
        }
    }

    pub fn from_tag(tag: u8) -> (r: Option<MessageType>)
        ensures
            r == type_of_tag(tag),
    {
        if tag == 1 {
            Some(MessageType::ProtocolVersion)
        } else if tag == 20 {
            Some(MessageType::CombatState)
        } else if tag == 22 {
            Some(MessageType::TakeTurn)
        } else if tag == 23 {
            Some(MessageType::CombatEvent)
        } else if tag == 30 {
            Some(MessageType::Victory)
        } else if tag == 255 {
            Some(MessageType::Party)
        } else {
            None
        }
    }

    /// A human-readable name for log lines.
    pub fn label(&self) -> (r: &'static str)
    {
        match self {
            MessageType::ProtocolVersion => "ProtocolVersion",
            MessageType::CombatState => "CombatState",
            MessageType::TakeTurn => "TakeTurn",
            MessageType::CombatEvent => "CombatEvent",
            MessageType::Victory => "Victory",
            MessageType::Party => "Party",
        }
    }
}

/// Mathematical value of a [`Message`].
#[verifier::ext_equal]
pub ghost struct MessageView {
    pub type_: MessageType,
    pub payload: Seq<u8>,
}

/// One wire envelope: a payload kind and the canonically encoded payload
/// bytes. The payload is opaque; only the decoder selected by `type_` may
/// interpret it.
#[derive(Clone, Debug, PartialEq)]
pub struct Message {
    pub type_: MessageType,
    pub payload: Vec<u8>,
}

impl View for Message {
    type V = MessageView;

    open spec fn view(&self) -> MessageView {
        MessageView { type_: self.type_, payload: self.payload@ }
    }
}

impl Message {
    /// The raw payload bytes, for transports and diagnostics.
    pub fn payload_bytes(&self) -> (r: &Vec<u8>)
        ensures
            r@ == self@.payload,
    {
        &self.payload
    }
}

} // verus!
