//! The login-state packets. Login is an extension point: its packet decodes,
//! but handling it leaves the connection state unchanged.

use vstd::prelude::*;
use vstd::utf8::valid_utf8;
use vstd::utf8::decode_utf8;
use std::collections::VecDeque;
use crate::state::ServerState;
use crate::types::DataType;
use crate::types::Uuid;
use crate::types::spec_u128_from_be;
use crate::types::DataTypeDecodeError;
use crate::types::var::VarInt;
use crate::types::var::VarString;
use crate::types::var::VarParse;
use crate::types::var::spec_varint_decode;
use crate::protocol::packet::PacketParseError;
use crate::protocol::packet::DecodeFailure;
use crate::protocol::packet::ParseFailure;
use crate::protocol::packet::decode_failure_matches;
use crate::protocol::packet::parse_failure_matches;

verus! {

/// The fields a well-formed login-success body spells, at the specification
/// level.
pub struct SpecLoginSuccess {
    /// The player's identifier.
    pub uuid: int,
    /// The player's name.
    pub username: Seq<char>,
}

/// Parse a login-success body: a 16-byte identifier, then the player's name
/// as a VarString.
pub open spec fn spec_parse_login_success(s: Seq<u8>) -> Result<SpecLoginSuccess, DecodeFailure> {
    if s.len() < 16 {
        Err(DecodeFailure::ShortFixed)
    } else {
        let uuid = spec_u128_from_be(s.take(16));
        let s1 = s.skip(16);
        match spec_varint_decode(s1) {
            VarParse::Parsed(nv, u2) => if nv > 0x7fffffff {
                Err(DecodeFailure::IntOutOfRange)
            } else if s1.len() < u2 + nv {
                Err(DecodeFailure::ShortVarNumber)
            } else if !valid_utf8(s1.subrange(u2 as int, u2 + nv)) {
                Err(DecodeFailure::InvalidUtf8)
            } else {
                Ok(
                    SpecLoginSuccess {
                        uuid,
                        username: decode_utf8(s1.subrange(u2 as int, u2 + nv)),
                    },
                )
            },
            VarParse::TooBig => Err(DecodeFailure::VarNumberTooBig),
            VarParse::Incomplete => Err(DecodeFailure::ShortVarNumber),
        }
    }
}

/// The login-success packet, identifier 2 in the login state.
#[derive(Debug, Clone)]
pub struct SLoginSuccess {
    /// The player's identifier.
    pub uuid: Uuid,
    /// The player's name.
    pub username: VarString,
}

impl SLoginSuccess {
    /// Parse the body from one frame's payload.
    pub fn parse(bytes: VecDeque<u8>) -> (r: Result<SLoginSuccess, PacketParseError>)
        ensures
            match spec_parse_login_success(bytes@) {
                Ok(h) => (r matches Ok(p) && p.uuid.0 == h.uuid && p.username@ == h.username),
                Err(f) => (r matches Err(PacketParseError::DataTypeDecodeError(e))
                    && decode_failure_matches(e, f)),
            },
    {
        let mut bytes = bytes;
        let uuid: Uuid = match Uuid::decode(&mut bytes) {
            Ok(v) => v,
            Err(e) => {
                return Err(PacketParseError::DataTypeDecodeError(e));
            },
        };
        let username: VarString = match VarString::decode(&mut bytes) {
            Ok(v) => v,
            Err(e) => {
                return Err(PacketParseError::DataTypeDecodeError(e));
            },
        };
        Ok(SLoginSuccess { uuid, username })
    }

    /// Handling login success is not implemented yet: the connection state
    /// is left as it is.
    pub fn handle(&self, server_state: ServerState) -> (r: ServerState)
        ensures
            r == server_state,
    {
        server_state
    }
}

/// Parse a whole frame payload in the login state: a VarInt packet
/// identifier, then the packet it names.
pub open spec fn spec_login_frame(s: Seq<u8>) -> Result<SpecLoginSuccess, ParseFailure> {
    match spec_varint_decode(s) {
        VarParse::Parsed(id, u) => if id as i32 == 2 {
            match spec_parse_login_success(s.skip(u as int)) {
                Ok(h) => Ok(h),
                Err(f) => Err(ParseFailure::Decode(f)),
            }
        } else {
            Err(ParseFailure::UnknownPacket(id as i32, ServerState::Login))
        },
        VarParse::TooBig => Err(ParseFailure::Decode(DecodeFailure::VarNumberTooBig)),
        VarParse::Incomplete => Err(ParseFailure::Decode(DecodeFailure::ShortVarNumber)),
    }
}

/// The packets a client may send while the connection is in the login state.
#[derive(Debug)]
pub enum LoginServerBoundPacket {
    /// Login success, identifier 2.
    LoginSuccess(SLoginSuccess),
}

impl LoginServerBoundPacket {
    /// Route a packet identifier to its packet and parse the body.
    pub fn parse(packet_id: i32, bytes: VecDeque<u8>) -> (r: Result<
        LoginServerBoundPacket,
        PacketParseError,
    >)
        ensures
            packet_id == 2 ==> match spec_parse_login_success(bytes@) {
                Ok(h) => (r matches Ok(LoginServerBoundPacket::LoginSuccess(p)) && p.uuid.0
                    == h.uuid && p.username@ == h.username),
                Err(f) => (r matches Err(PacketParseError::DataTypeDecodeError(e))
                    && decode_failure_matches(e, f)),
            },
            packet_id != 2 ==> r == Err::<LoginServerBoundPacket, PacketParseError>(
                PacketParseError::UnknownPacket(packet_id, ServerState::Login),
            ),
    {
        if packet_id == 2 {
            match SLoginSuccess::parse(bytes) {
                Ok(p) => Ok(LoginServerBoundPacket::LoginSuccess(p)),
                Err(e) => Err(e),
            }
        } else {
            Err(PacketParseError::UnknownPacket(packet_id, ServerState::Login))
        }
    }

    /// Handle the packet: the state is left unchanged.
    pub fn handle(&self, server_state: ServerState) -> (r: ServerState)
        ensures
            r == server_state,
    {
        match self {
            LoginServerBoundPacket::LoginSuccess(p) => p.handle(server_state),
        }
    }

    /// Parse a whole frame payload: the packet identifier, then the packet.
    pub fn try_from(value: VecDeque<u8>) -> (r: Result<LoginServerBoundPacket, PacketParseError>)
        ensures
            match spec_login_frame(value@) {
                Ok(h) => (r matches Ok(LoginServerBoundPacket::LoginSuccess(p)) && p.uuid.0
                    == h.uuid && p.username@ == h.username),
                Err(f) => (r matches Err(e) && parse_failure_matches(e, f)),
            },
    {
        let mut value = value;
        let id: VarInt = match VarInt::decode(&mut value) {
            Ok(v) => v,
            Err(e) => {
                return Err(PacketParseError::DataTypeDecodeError(e));
            },
        };
        LoginServerBoundPacket::parse(id.0, value)
    }
}

} // verus!
