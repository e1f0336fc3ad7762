//! The replica's side of the replication handshake: four requests, each
//! followed by one reply that is read and dropped.

use vstd::prelude::*;
use vstd::string::*;
use crate::resp::data_type::{wire_bytes, DataType, Frame};
use crate::resp::text::{decimal, usize_to_string};

verus! {

/// How far the handshake has come.
#[derive(Clone, Copy, Debug, PartialEq, Eq, Structural)]
pub enum HandshakeState {
    /// Nothing has been sent yet.
    Start,
    /// The ping is out; its reply has not been read.
    AwaitingPong,
    /// The listening port is out; its reply has not been read.
    AwaitingPortReply,
    /// The capabilities are out; their reply has not been read.
    AwaitingCapabilityReply,
    /// The request to synchronise is out; its reply has not been read.
    AwaitingSnapshot,
    /// All four replies have been read.
    Done,
}

/// What the replica does next.
#[derive(Debug, PartialEq, Eq)]
pub enum HandshakeAction {
    /// Send these bytes to the master, then read one reply.
    Send(Vec<u8>),
    /// Nothing is left to do.
    Finish,
}

/// An array of bulk strings.
pub open spec fn words(texts: Seq<Seq<char>>) -> Frame {
    Frame::Array(texts.map_values(|text: Seq<char>| Frame::Bulk(text)))
}

/// The state after the step taken in `state`.
pub open spec fn next_state(state: HandshakeState) -> HandshakeState {
    match state {
        HandshakeState::Start => HandshakeState::AwaitingPong,
        HandshakeState::AwaitingPong => HandshakeState::AwaitingPortReply,
        HandshakeState::AwaitingPortReply => HandshakeState::AwaitingCapabilityReply,
        HandshakeState::AwaitingCapabilityReply => HandshakeState::AwaitingSnapshot,
        HandshakeState::AwaitingSnapshot => HandshakeState::Done,
        HandshakeState::Done => HandshakeState::Done,
    }
}

/// The request that the step taken in `state` sends, for a replica that
/// listens on `port`; `None` once the last reply has been read.
pub open spec fn request_in(state: HandshakeState, port: usize) -> Option<Frame> {
    match state {
        HandshakeState::Start => Some(words(seq!["ping"@])),
        HandshakeState::AwaitingPong => Some(
            words(seq!["REPLCONF"@, "listening-port"@, decimal(port as nat)]),
        ),
        HandshakeState::AwaitingPortReply => Some(words(seq!["REPLCONF"@, "capa"@, "psync2"@])),
        HandshakeState::AwaitingCapabilityReply => Some(words(seq!["PSYNC"@, "?"@, "-1"@])),
        HandshakeState::AwaitingSnapshot => None,
        HandshakeState::Done => None,
    }
}

/// How many steps lead from `state` to the end.
pub open spec fn steps_left(state: HandshakeState) -> nat {
    match state {
        HandshakeState::Start => 5,
        HandshakeState::AwaitingPong => 4,
        HandshakeState::AwaitingPortReply => 3,
        HandshakeState::AwaitingCapabilityReply => 2,
        HandshakeState::AwaitingSnapshot => 1,
        HandshakeState::Done => 0,
    }
}

/// An array of three bulk strings.
fn triple(first: &str, second: &str, third: &str) -> (value: DataType)
    ensures
        value@ == words(seq![first@, second@, third@]),
{
    let mut items: Vec<DataType> = Vec::new();
    items.push(DataType::BulkString(String::from_str(first)));
    items.push(DataType::BulkString(String::from_str(second)));
    items.push(DataType::BulkString(String::from_str(third)));
    assert(items[0]@ == Frame::Bulk(first@));
    assert(items[1]@ == Frame::Bulk(second@));
    assert(items[2]@ == Frame::Bulk(third@));
    let value = DataType::Array(items);
    assert(value@->Array_0 =~= words(seq![first@, second@, third@])->Array_0);
    value
}

/// Takes one step of the handshake. The first step is taken at the start;
/// each further one when the reply to the request before it has been read,
/// whatever that reply holds.
pub fn handshake_step(state: HandshakeState, port: usize) -> (step: (
    HandshakeState,
    HandshakeAction,
))
    ensures
        step.0 == next_state(state),
        match request_in(state, port) {
            Some(request) => step.1 matches HandshakeAction::Send(bytes) && bytes@ == wire_bytes(
                request,
            ),
            None => step.1 == HandshakeAction::Finish,
        },
{
    match state {
        HandshakeState::Start => {
            let mut items: Vec<DataType> = Vec::new();
            items.push(DataType::BulkString(String::from_str("ping")));
            assert(items[0]@ == Frame::Bulk("ping"@));
            let value = DataType::Array(items);
            assert(value@->Array_0 =~= words(seq!["ping"@])->Array_0);
            (HandshakeState::AwaitingPong, HandshakeAction::Send(value.to_bytes()))
        },
        HandshakeState::AwaitingPong => {
            let own_port = usize_to_string(port);
            let value = triple("REPLCONF", "listening-port", own_port.as_str());
            (HandshakeState::AwaitingPortReply, HandshakeAction::Send(value.to_bytes()))
        },
        HandshakeState::AwaitingPortReply => {
            let value = triple("REPLCONF", "capa", "psync2");
            (HandshakeState::AwaitingCapabilityReply, HandshakeAction::Send(value.to_bytes()))
        },
        HandshakeState::AwaitingCapabilityReply => {
            let value = triple("PSYNC", "?", "-1");
            (HandshakeState::AwaitingSnapshot, HandshakeAction::Send(value.to_bytes()))
        },
        HandshakeState::AwaitingSnapshot => (HandshakeState::Done, HandshakeAction::Finish),
        HandshakeState::Done => (HandshakeState::Done, HandshakeAction::Finish),
    }
}

/// The handshake sends exactly four requests and then ends: each step
/// brings the end one step nearer, and a request goes out in all states but
/// the last two.
pub proof fn law_handshake_ends(state: HandshakeState, port: usize)
    ensures
        state != HandshakeState::Done ==> steps_left(next_state(state)) + 1 == steps_left(state),
        request_in(state, port) is Some <==> steps_left(state) >= 2,
        steps_left(state) == 0 <==> state == HandshakeState::Done,
{
}

} // verus!
