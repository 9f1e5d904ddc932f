//! The handshake packet: the first frame of every connection, which selects
//! the next protocol state.

use vstd::prelude::*;
use vstd::utf8::valid_utf8;
use vstd::utf8::decode_utf8;
use std::collections::VecDeque;
use crate::state::ServerState;
use crate::types::DataType;
use crate::types::DataTypeDecodeError;
use crate::types::DataTypeEncodeError;
use crate::types::var::VarInt;
use crate::types::var::VarString;
use crate::types::var::VarParse;
use crate::types::var::spec_varint_decode;
use crate::protocol::packet::PacketParseError;
use crate::protocol::packet::DecodeFailure;
use crate::protocol::packet::ParseFailure;
use crate::protocol::packet::decode_failure_matches;
use crate::protocol::packet::parse_failure_matches;

verus! {

/// The state a client asks to continue in after the handshake.
#[derive(Clone, Copy, Debug, PartialEq, Eq, Structural)]
pub enum State {
    /// Server-list ping (next-state code 1).
    Status,
    /// Authentication (next-state code 2).
    Login,
    /// Transfer from another server (next-state code 3).
    Transfer,
}

impl State {
    /// Map a next-state code to its state; any code outside 1..=3 is an
    /// invalid variant of this enumeration.
    pub fn try_from(value: VarInt) -> (r: Result<State, DataTypeDecodeError>)
        ensures
            value.0 == 1 ==> r == Ok::<State, DataTypeDecodeError>(State::Status),
            value.0 == 2 ==> r == Ok::<State, DataTypeDecodeError>(State::Login),
            value.0 == 3 ==> r == Ok::<State, DataTypeDecodeError>(State::Transfer),
            !(1 <= value.0 <= 3) ==> (r matches Err(e) && decode_failure_matches(
                e,
                DecodeFailure::InvalidEnumVariant(value.0),
            )),
    {
        if value.0 == 1 {
            Ok(State::Status)
        } else if value.0 == 2 {
            Ok(State::Login)
        } else if value.0 == 3 {
            Ok(State::Transfer)
        } else {
            Err(
                DataTypeDecodeError::InvalidVarIntEnumVariant {
                    variant: value,
                    enumeration: "State".to_owned(),
                },
            )
        }
    }
}

/// The fields a well-formed handshake frame spells, at the specification
/// level.
pub struct SpecHandshake {
    /// The client's protocol version.
    pub protocol_version: i32,
    /// The address the client connected to.
    pub server_address: Seq<char>,
    /// The port the client connected to.
    pub server_port: u16,
    /// The state the client asks to continue in.
    pub next_state: State,
}

/// Parse a handshake body: protocol version (VarInt), server address
/// (VarString), server port (unsigned short), next state (VarInt in 1..=3).
pub open spec fn spec_parse_handshake(s: Seq<u8>) -> Result<SpecHandshake, DecodeFailure> {
    match spec_varint_decode(s) {
        VarParse::Parsed(pv, u1) => {
            let s1 = s.skip(u1 as int);
            match spec_varint_decode(s1) {
                VarParse::Parsed(nv, u2) => if nv > 0x7fffffff {
                    Err(DecodeFailure::IntOutOfRange)
                } else if s1.len() < u2 + nv {
                    Err(DecodeFailure::ShortVarNumber)
                } else if !valid_utf8(s1.subrange(u2 as int, u2 + nv)) {
                    Err(DecodeFailure::InvalidUtf8)
                } else {
                    let addr = decode_utf8(s1.subrange(u2 as int, u2 + nv));
                    let s2 = s1.skip(u2 + nv);
                    if s2.len() < 2 {
                        Err(DecodeFailure::ShortFixed)
                    } else {
                        let port = (s2[0] * 0x100 + s2[1]) as u16;
                        let s3 = s2.skip(2);
                        match spec_varint_decode(s3) {
                            VarParse::Parsed(ns, _) => {
                                let code = ns as i32;
                                if code == 1 {
                                    Ok(
                                        SpecHandshake {
                                            protocol_version: pv as i32,
                                            server_address: addr,
                                            server_port: port,
                                            next_state: State::Status,
                                        },
                                    )
                                } else if code == 2 {
                                    Ok(
                                        SpecHandshake {
                                            protocol_version: pv as i32,
                                            server_address: addr,
                                            server_port: port,
                                            next_state: State::Login,
                                        },
                                    )
                                } else if code == 3 {
                                    Ok(
                                        SpecHandshake {
                                            protocol_version: pv as i32,
                                            server_address: addr,
                                            server_port: port,
                                            next_state: State::Transfer,
                                        },
                                    )
                                } else {
                                    Err(DecodeFailure::InvalidEnumVariant(code))
                                }
                            },
                            VarParse::TooBig => Err(DecodeFailure::VarNumberTooBig),
                            VarParse::Incomplete => Err(DecodeFailure::ShortVarNumber),
                        }
                    }
                },
                VarParse::TooBig => Err(DecodeFailure::VarNumberTooBig),
                VarParse::Incomplete => Err(DecodeFailure::ShortVarNumber),
            }
        },
        VarParse::TooBig => Err(DecodeFailure::VarNumberTooBig),
        VarParse::Incomplete => Err(DecodeFailure::ShortVarNumber),
    }
}

/// The handshake packet, identifier 0 in the handshake state.
#[derive(Debug, Clone)]
pub struct SHandshake {
    /// The client's protocol version; a mismatch is not fatal.
    pub protocol_version: VarInt,
    /// The address the client connected to.
    pub server_address: VarString,
    /// The port the client connected to.
    pub server_port: u16,
    /// The state the client asks to continue in.
    pub next_state: State,
}

impl SHandshake {
    /// Parse the handshake body from one frame's payload.
    pub fn parse(bytes: VecDeque<u8>) -> (r: Result<SHandshake, PacketParseError>)
        ensures
            match spec_parse_handshake(bytes@) {
                Ok(h) => (r matches Ok(p) && p.protocol_version.0 == h.protocol_version
                    && p.server_address@ == h.server_address && p.server_port == h.server_port
                    && p.next_state == h.next_state),
                Err(f) => (r matches Err(PacketParseError::DataTypeDecodeError(e))
                    && decode_failure_matches(e, f)),
            },
    {
        let mut bytes = bytes;
        let protocol_version: VarInt = match VarInt::decode(&mut bytes) {
            Ok(v) => v,
            Err(e) => {
                return Err(PacketParseError::DataTypeDecodeError(e));
            },
        };
        let server_address: VarString = match VarString::decode(&mut bytes) {
            Ok(v) => v,
            Err(e) => {
                return Err(PacketParseError::DataTypeDecodeError(e));
            },
        };
        let server_port: u16 = match u16::decode(&mut bytes) {
            Ok(v) => v,
            Err(e) => {
                return Err(PacketParseError::DataTypeDecodeError(e));
            },
        };
        let next_raw: VarInt = match VarInt::decode(&mut bytes) {
            Ok(v) => v,
            Err(e) => {
                return Err(PacketParseError::DataTypeDecodeError(e));
            },
        };
        let next_state: State = match State::try_from(next_raw) {
            Ok(v) => v,
            Err(e) => {
                return Err(PacketParseError::DataTypeDecodeError(e));
            },
        };
        Ok(SHandshake { protocol_version, server_address, server_port, next_state })
    }

    /// Decide the next connection state: the next-state field alone selects
    /// it, and no response is sent.
    pub fn handle(&self, _server_state: ServerState) -> (r: Result<
        (ServerState, Option<Vec<u8>>),
        DataTypeEncodeError,
    >)
        ensures
            r matches Ok((st, resp)) && resp is None && st == (match self.next_state {
                State::Status => ServerState::Status,
                State::Login => ServerState::Login,
                State::Transfer => ServerState::Play,
            }),
    {
        match self.next_state {
            State::Status => Ok((ServerState::Status, None)),
            State::Login => Ok((ServerState::Login, None)),
            State::Transfer => Ok((ServerState::Play, None)),
        }
    }
}

/// Parse a whole frame payload in the handshake state: a VarInt packet
/// identifier, then the packet it names.
pub open spec fn spec_handshake_frame(s: Seq<u8>) -> Result<SpecHandshake, ParseFailure> {
    match spec_varint_decode(s) {
        VarParse::Parsed(id, u) => if id as i32 == 0 {
            match spec_parse_handshake(s.skip(u as int)) {
                Ok(h) => Ok(h),
                Err(f) => Err(ParseFailure::Decode(f)),
            }
        } else {
            Err(ParseFailure::UnknownPacket(id as i32, ServerState::Handshake))
        },
        VarParse::TooBig => Err(ParseFailure::Decode(DecodeFailure::VarNumberTooBig)),
        VarParse::Incomplete => Err(ParseFailure::Decode(DecodeFailure::ShortVarNumber)),
    }
}

/// The packets a client may send while the connection is in the handshake
/// state.
#[derive(Debug)]
pub enum HandshakeServerBoundPacket {
    /// The handshake itself, identifier 0.
    Handshake(SHandshake),
}

impl HandshakeServerBoundPacket {
    /// Route a packet identifier to its packet and parse the body.
    pub fn parse(packet_id: i32, bytes: VecDeque<u8>) -> (r: Result<
        HandshakeServerBoundPacket,
        PacketParseError,
    >)
        ensures
            packet_id == 0 ==> match spec_parse_handshake(bytes@) {
                Ok(h) => (r matches Ok(HandshakeServerBoundPacket::Handshake(p))
                    && p.protocol_version.0 == h.protocol_version && p.server_address@
                    == h.server_address && p.server_port == h.server_port && p.next_state
                    == h.next_state),
                Err(f) => (r matches Err(PacketParseError::DataTypeDecodeError(e))
                    && decode_failure_matches(e, f)),
            },
            packet_id != 0 ==> r == Err::<HandshakeServerBoundPacket, PacketParseError>(
                PacketParseError::UnknownPacket(packet_id, ServerState::Handshake),
            ),
    {
        if packet_id == 0 {
            match SHandshake::parse(bytes) {
                Ok(p) => Ok(HandshakeServerBoundPacket::Handshake(p)),
                Err(e) => Err(e),
            }
        } else {
            Err(PacketParseError::UnknownPacket(packet_id, ServerState::Handshake))
        }
    }

    /// Handle the packet: the handshake selects the next state.
    pub fn handle(&self, server_state: ServerState) -> (r: Result<
        (ServerState, Option<Vec<u8>>),
        DataTypeEncodeError,
    >)
        ensures
            self matches HandshakeServerBoundPacket::Handshake(p) ==> (r matches Ok((st, resp))
                && resp is None && st == (match p.next_state {
                State::Status => ServerState::Status,
                State::Login => ServerState::Login,
                State::Transfer => ServerState::Play,
            })),
    {
        match self {
            HandshakeServerBoundPacket::Handshake(p) => p.handle(server_state),
        }
    }

    /// Parse a whole frame payload: the packet identifier, then the packet.
    pub fn try_from(value: VecDeque<u8>) -> (r: Result<
        HandshakeServerBoundPacket,
        PacketParseError,
    >)
        ensures
            match spec_handshake_frame(value@) {
                Ok(h) => (r matches Ok(HandshakeServerBoundPacket::Handshake(p))
                    && p.protocol_version.0 == h.protocol_version && p.server_address@
                    == h.server_address && p.server_port == h.server_port && p.next_state
                    == h.next_state),
                Err(f) => (r matches Err(e) && parse_failure_matches(e, f)),
            },
    {
        let mut value = value;
        let id: VarInt = match VarInt::decode(&mut value) {
            Ok(v) => v,
            Err(e) => {
                return Err(PacketParseError::DataTypeDecodeError(e));
            },
        };
        HandshakeServerBoundPacket::parse(id.0, value)
    }
}

} // verus!
