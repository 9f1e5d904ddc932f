//! The per-connection state machine: one frame's payload is dispatched by
//! the current protocol state, and the legacy server-list ping of very old
//! clients is recognised and answered outside the framed protocol.

use vstd::prelude::*;
use vstd::utf8::encode_utf8;
use std::collections::VecDeque;
use crate::state::ServerState;
use crate::types::spec_u64_be_bytes;
use crate::types::var::spec_varstring_bytes;
use crate::protocol::packet::PacketParseError;
use crate::protocol::packet::ParseFailure;
use crate::protocol::packet::parse_failure_matches;
use crate::protocol::packet::spec_frame;
use crate::protocol::handshake::State;
use crate::protocol::handshake::HandshakeServerBoundPacket;
use crate::protocol::handshake::spec_handshake_frame;
use crate::protocol::status::StatusServerBoundPacket;
use crate::protocol::status::SpecStatusPacket;
use crate::protocol::status::spec_status_frame;
use crate::protocol::status::spec_status_json;

verus! {

/// What handling one frame does to the connection, at the specification
/// level: move to a state (perhaps sending a response), or reject the frame
/// and leave the state alone.
pub enum HandleOutcome {
    /// The connection continues in this state; `Some` bytes are written back.
    Next(ServerState, Option<Seq<u8>>),
    /// The frame was rejected with this failure; the state is unchanged.
    Rejected(ParseFailure),
}

/// What dispatching a frame's payload in a state does.
///
/// In the handshake state the handshake packet selects the next state; in
/// the status state a status request answers with the fixed document and a
/// ping request echoes and closes; data in any other state is ignored
/// (closed connections and the unimplemented login and play phases).
pub open spec fn spec_handle_packet(state: ServerState, s: Seq<u8>) -> HandleOutcome {
    match state {
        ServerState::Handshake => match spec_handshake_frame(s) {
            Ok(h) => HandleOutcome::Next(
                match h.next_state {
                    State::Status => ServerState::Status,
                    State::Login => ServerState::Login,
                    State::Transfer => ServerState::Play,
                },
                None,
            ),
            Err(f) => HandleOutcome::Rejected(f),
        },
        ServerState::Status => match spec_status_frame(s) {
            Ok(SpecStatusPacket::StatusRequest) => if encode_utf8(spec_status_json()).len()
                <= 0x7fffffff {
                HandleOutcome::Next(
                    ServerState::Status,
                    spec_frame(0, spec_varstring_bytes(spec_status_json())),
                )
            } else {
                HandleOutcome::Next(ServerState::Status, None)
            },
            Ok(SpecStatusPacket::PingRequest(t)) => HandleOutcome::Next(
                ServerState::Closed,
                spec_frame(1, spec_u64_be_bytes(t as u64)),
            ),
            Err(f) => HandleOutcome::Rejected(f),
        },
        ServerState::Login => HandleOutcome::Next(ServerState::Login, None),
        ServerState::Play => HandleOutcome::Next(ServerState::Play, None),
        ServerState::Closed => HandleOutcome::Next(ServerState::Closed, None),
    }
}

/// Whether the response bytes `r2` are the response `resp` asks for.
pub open spec fn spec_response_matches(r2: Option<Vec<u8>>, resp: Option<Seq<u8>>) -> bool {
    match resp {
        Some(b) => (r2 matches Some(v) && v@ == b),
        None => r2 is None,
    }
}

/// Copy a frame payload into the byte source the packet parsers read from.
#[verifier::loop_isolation(false)]
fn to_deque(v: &Vec<u8>) -> (d: VecDeque<u8>)
    ensures
        d@ == v@,
{
    let mut d: VecDeque<u8> = VecDeque::new();
    let mut i: usize = 0;
    while i < v.len()
        invariant
            i <= v.len(),
            d@ == v@.take(i as int),
        decreases v.len() - i,
    {
        d.push_back(v[i]);
        proof {
            assert(d@ =~= v@.take(i + 1));
        }
        i = i + 1;
    }
    proof {
        assert(v@.take(v@.len() as int) =~= v@);
    }
    d
}

/// Dispatch one frame's payload through the current state's packet union:
/// the result is the next state and, possibly, a framed response to write
/// back. A payload that parses but cannot be answered (its response failed
/// to encode) leaves the state unchanged and sends nothing; a payload that
/// does not parse is rejected and the caller keeps its state.
pub fn handle_packet(server_state: ServerState, request: Vec<u8>) -> (r: Result<
    (ServerState, Option<Vec<u8>>),
    PacketParseError,
>)
    ensures
        match spec_handle_packet(server_state, request@) {
            HandleOutcome::Next(st, resp) => (r matches Ok((s2, r2)) && s2 == st
                && spec_response_matches(r2, resp)),
            HandleOutcome::Rejected(f) => (r matches Err(e) && parse_failure_matches(e, f)),
        },
{
    let deque: VecDeque<u8> = to_deque(&request);
    match server_state {
        ServerState::Handshake => match HandshakeServerBoundPacket::try_from(deque) {
            Ok(packet) => match packet.handle(server_state) {
                Ok(x) => Ok(x),
                Err(_) => Ok((server_state, None)),
            },
            Err(e) => Err(e),
        },
        ServerState::Status => match StatusServerBoundPacket::try_from(deque) {
            Ok(packet) => match packet.handle(server_state) {
                Ok(x) => Ok(x),
                Err(_) => Ok((server_state, None)),
            },
            Err(e) => Err(e),
        },
        ServerState::Closed => Ok((ServerState::Closed, None)),
        ServerState::Login => Ok((ServerState::Login, None)),
        ServerState::Play => Ok((ServerState::Play, None)),
    }
}

/// The magic prefix very old clients open their server-list ping with: a
/// packet identifier, then "MC|PingHost" as a length-prefixed UTF-16
/// big-endian string.
pub open spec fn spec_legacy_ping_magic() -> Seq<u8> {
    seq![
        0xfau8, 0x00u8, 0x0bu8, 0x00u8, 0x4du8, 0x00u8, 0x43u8, 0x00u8, 0x7cu8, 0x00u8,
        0x50u8, 0x00u8, 0x69u8, 0x00u8, 0x6eu8, 0x00u8, 0x67u8, 0x00u8, 0x48u8, 0x00u8,
        0x6fu8, 0x00u8, 0x73u8, 0x00u8, 0x74u8,
    ]
}

/// The magic prefix, as bytes to compare a peeked buffer against.
#[verifier::loop_isolation(false)]
pub fn legacy_ping_magic() -> (r: Vec<u8>)
    ensures
        r@ == spec_legacy_ping_magic(),
{
    let mut r: Vec<u8> = Vec::new();
    r.push(0xfa);
    r.push(0x00);
    r.push(0x0b);
    r.push(0x00);
    r.push(0x4d);
    r.push(0x00);
    r.push(0x43);
    r.push(0x00);
    r.push(0x7c);
    r.push(0x00);
    r.push(0x50);
    r.push(0x00);
    r.push(0x69);
    r.push(0x00);
    r.push(0x6e);
    r.push(0x00);
    r.push(0x67);
    r.push(0x00);
    r.push(0x48);
    r.push(0x00);
    r.push(0x6f);
    r.push(0x00);
    r.push(0x73);
    r.push(0x00);
    r.push(0x74);
    proof {
        assert(r@ =~= spec_legacy_ping_magic());
    }
    r
}

/// Whether a peeked buffer is exactly the legacy-ping magic prefix.
#[verifier::loop_isolation(false)]
pub fn is_legacy_ping(buf: &[u8]) -> (r: bool)
    ensures
        r == (buf@ == spec_legacy_ping_magic()),
{
    let magic: Vec<u8> = legacy_ping_magic();
    if buf.len() != magic.len() {
        return false;
    }
    let mut i: usize = 0;
    while i < magic.len()
        invariant
            i <= magic.len(),
            buf@.len() == magic@.len(),
            forall|j: int| 0 <= j < i ==> buf@[j] == magic@[j],
        decreases magic.len() - i,
    {
        if buf[i] != magic[i] {
            return false;
        }
        i = i + 1;
    }
    proof {
        assert(buf@ =~= spec_legacy_ping_magic());
    }
    true
}

/// The fixed legacy "kick" answer: a kick identifier, a character count,
/// then UTF-16 big-endian fields separated by section-sign delimiters —
/// protocol version, game version, server description, current and maximum
/// player counts.
pub open spec fn spec_legacy_kick_response() -> Seq<u8> {
    seq![
        0xffu8, 0x00u8, 0x25u8, 0x00u8, 0xa7u8, 0x00u8, 0x31u8, 0x00u8, 0x00u8, 0x00u8,
        0x31u8, 0x00u8, 0x32u8, 0x00u8, 0x37u8, 0x00u8, 0x00u8, 0x00u8, 0x31u8, 0x00u8,
        0x2eu8, 0x00u8, 0x32u8, 0x00u8, 0x31u8, 0x00u8, 0x2eu8, 0x00u8, 0x32u8, 0x00u8,
        0x00u8, 0x00u8, 0x41u8, 0x00u8, 0x74u8, 0x00u8, 0x6du8, 0x00u8, 0x6fu8, 0x00u8,
        0x73u8, 0x00u8, 0x70u8, 0x00u8, 0x68u8, 0x00u8, 0x65u8, 0x00u8, 0x72u8, 0x00u8,
        0x65u8, 0x00u8, 0x4du8, 0x00u8, 0x43u8, 0x00u8, 0x20u8, 0x00u8, 0x2du8, 0x00u8,
        0x20u8, 0x00u8, 0x56u8, 0x00u8, 0x6fu8, 0x00u8, 0x69u8, 0x00u8, 0x64u8, 0x00u8,
        0x00u8, 0x00u8, 0x30u8, 0x00u8, 0x00u8, 0x00u8, 0x30u8,
    ]
}

/// The legacy "kick" answer, as the bytes written back to the client.
#[verifier::loop_isolation(false)]
#[verifier::rlimit(60)]
pub fn legacy_kick_response() -> (r: Vec<u8>)
    ensures
        r@ == spec_legacy_kick_response(),
{
    let mut r: Vec<u8> = Vec::new();
    r.push(0xff);
    r.push(0x00);
    r.push(0x25);
    r.push(0x00);
    r.push(0xa7);
    r.push(0x00);
    r.push(0x31);
    r.push(0x00);
    r.push(0x00);
    r.push(0x00);
    r.push(0x31);
    r.push(0x00);
    r.push(0x32);
    r.push(0x00);
    r.push(0x37);
    r.push(0x00);
    r.push(0x00);
    r.push(0x00);
    r.push(0x31);
    r.push(0x00);
    r.push(0x2e);
    r.push(0x00);
    r.push(0x32);
    r.push(0x00);
    r.push(0x31);
    r.push(0x00);
    r.push(0x2e);
    r.push(0x00);
    r.push(0x32);
    r.push(0x00);
    r.push(0x00);
    r.push(0x00);
    r.push(0x41);
    r.push(0x00);
    r.push(0x74);
    r.push(0x00);
    r.push(0x6d);
    r.push(0x00);
    r.push(0x6f);
    r.push(0x00);
    r.push(0x73);
    r.push(0x00);
    r.push(0x70);
    r.push(0x00);
    r.push(0x68);
    r.push(0x00);
    r.push(0x65);
    r.push(0x00);
    r.push(0x72);
    r.push(0x00);
    r.push(0x65);
    r.push(0x00);
    r.push(0x4d);
    r.push(0x00);
    r.push(0x43);
    r.push(0x00);
    r.push(0x20);
    r.push(0x00);
    r.push(0x2d);
    r.push(0x00);
    r.push(0x20);
    r.push(0x00);
    r.push(0x56);
    r.push(0x00);
    r.push(0x6f);
    r.push(0x00);
    r.push(0x69);
    r.push(0x00);
    r.push(0x64);
    r.push(0x00);
    r.push(0x00);
    r.push(0x00);
    r.push(0x30);
    r.push(0x00);
    r.push(0x00);
    r.push(0x00);
    r.push(0x30);
    proof {
        assert(r@ =~= spec_legacy_kick_response());
    }
    r
}

} // verus!
