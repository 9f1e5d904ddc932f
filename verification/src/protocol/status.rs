//! The status-state packets: the server-list ping. A status request is
//! answered with a fixed JSON document; a ping request is echoed back and
//! closes the connection.

use vstd::prelude::*;
use vstd::utf8::encode_utf8;
use std::collections::VecDeque;
use crate::state::ServerState;
use crate::types::DataType;
use crate::types::DataTypeDecodeError;
use crate::types::DataTypeEncodeError;
use crate::types::spec_u64_from_be;
use crate::types::spec_u64_be_bytes;
use crate::types::var::VarInt;
use crate::types::var::VarString;
use crate::types::var::VarParse;
use crate::types::var::spec_varint_decode;
use crate::types::var::spec_varstring_bytes;
use crate::protocol::packet::PacketParseError;
use crate::protocol::packet::DecodeFailure;
use crate::protocol::packet::ParseFailure;
use crate::protocol::packet::parse_failure_matches;
use crate::protocol::packet::spec_frame;
use crate::protocol::packet::frame_packet;

verus! {

/// The status document this server answers every status request with.
pub open spec fn spec_status_json() -> Seq<char> {
    "{\"version\":{\"name\":\"1.21.2\",\"protocol\":768},\"players\":{\"max\":100,\"online\":5,\"sample\":[{\"name\":\"thinkofdeath\",\"id\":\"4566e69f-c907-48ee-8d71-d7ba5aa00d20\"}]},\"description\":{\"text\":\"Hello, world!\"},\"favicon\":\"data:image/png;base64,<data>\",\"enforcesSecureChat\":false}"@
}

/// The status document, as the text the response carries.
pub fn status_json() -> (r: &'static str)
    ensures
        r@ == spec_status_json(),
{
    "{\"version\":{\"name\":\"1.21.2\",\"protocol\":768},\"players\":{\"max\":100,\"online\":5,\"sample\":[{\"name\":\"thinkofdeath\",\"id\":\"4566e69f-c907-48ee-8d71-d7ba5aa00d20\"}]},\"description\":{\"text\":\"Hello, world!\"},\"favicon\":\"data:image/png;base64,<data>\",\"enforcesSecureChat\":false}"
}

/// The frame a clientbound packet becomes: `Ok(Some(frame))` to send,
/// `Ok(None)` when the frame's length prefix cannot carry it (the packet is
/// dropped, not sent malformed), `Err` when a field of the body failed to
/// encode.
pub open spec fn spec_to_frame_result(
    r: Result<Option<Vec<u8>>, DataTypeEncodeError>,
    frame: Option<Seq<u8>>,
) -> bool {
    match frame {
        Some(f) => (r matches Ok(o) && o matches Some(v) && v@ == f),
        None => (r matches Ok(o) && o is None),
    }
}

/// The status response, identifier 0 clientbound: one JSON text.
#[derive(Debug, Clone)]
pub struct CStatusResponse {
    /// The JSON status document.
    pub json_response: VarString,
}

impl CStatusResponse {
    /// Wrap a JSON document.
    pub fn new(response: String) -> (r: Self)
        ensures
            r.json_response@ == response@,
    {
        CStatusResponse { json_response: VarString::new(response) }
    }

    /// Append this packet's body to `to`: the JSON text as a VarString.
    pub fn encode(&self, to: &mut Vec<u8>) -> (r: Result<(), DataTypeEncodeError>)
        ensures
            encode_utf8(self.json_response@).len() <= 0x7fffffff ==> r == Ok::<
                (),
                DataTypeEncodeError,
            >(()) && final(to)@ == old(to)@ + spec_varstring_bytes(self.json_response@),
            encode_utf8(self.json_response@).len() > 0x7fffffff ==> r == Err::<
                (),
                DataTypeEncodeError,
            >(DataTypeEncodeError::TryFromIntError) && final(to)@ == old(to)@,
    {
        self.json_response.encode(to)
    }

    /// Lay this packet into one outgoing frame.
    pub fn to_frame(&self) -> (r: Result<Option<Vec<u8>>, DataTypeEncodeError>)
        ensures
            encode_utf8(self.json_response@).len() <= 0x7fffffff ==> spec_to_frame_result(
                r,
                spec_frame(0, spec_varstring_bytes(self.json_response@)),
            ),
            encode_utf8(self.json_response@).len() > 0x7fffffff ==> r == Err::<
                Option<Vec<u8>>,
                DataTypeEncodeError,
            >(DataTypeEncodeError::TryFromIntError),
    {
        let mut body: Vec<u8> = Vec::new();
        match self.encode(&mut body) {
            Ok(_) => {},
            Err(e) => {
                return Err(e);
            },
        }
        Ok(frame_packet(0, body))
    }
}

/// The ping response, identifier 1 clientbound: the echoed timestamp.
#[derive(Debug, Clone, Copy)]
pub struct CPingResponse {
    /// The timestamp the ping request carried.
    pub time: i64,
}

impl CPingResponse {
    /// Wrap a timestamp.
    pub fn new(time: i64) -> (r: Self)
        ensures
            r.time == time,
    {
        CPingResponse { time }
    }

    /// Append this packet's body to `to`: the timestamp as eight big-endian
    /// bytes.
    pub fn encode(&self, to: &mut Vec<u8>) -> (r: Result<(), DataTypeEncodeError>)
        ensures
            r == Ok::<(), DataTypeEncodeError>(()),
            final(to)@ == old(to)@ + spec_u64_be_bytes(self.time as u64),
    {
        self.time.encode(to)
    }

    /// Lay this packet into one outgoing frame.
    pub fn to_frame(&self) -> (r: Result<Option<Vec<u8>>, DataTypeEncodeError>)
        ensures
            spec_to_frame_result(r, spec_frame(1, spec_u64_be_bytes(self.time as u64))),
    {
        let mut body: Vec<u8> = Vec::new();
        match self.encode(&mut body) {
            Ok(_) => {},
            Err(e) => {
                return Err(e);
            },
        }
        Ok(frame_packet(1, body))
    }
}

/// The status request, identifier 0 in the status state: no body.
#[derive(Debug, Clone)]
pub struct SStatusRequest {}

impl SStatusRequest {
    /// Parse the (empty) body; anything after the identifier is ignored.
    pub fn parse(_bytes: VecDeque<u8>) -> (r: Result<SStatusRequest, PacketParseError>)
        ensures
            r is Ok,
    {
        Ok(SStatusRequest {  })
    }

    /// Answer with the fixed status document and stay in the same state.
    pub fn handle(&self, server_state: ServerState) -> (r: Result<
        (ServerState, Option<Vec<u8>>),
        DataTypeEncodeError,
    >)
        ensures
            encode_utf8(spec_status_json()).len() <= 0x7fffffff ==> (r matches Ok((st, resp))
                && st == server_state && (match spec_frame(
                0,
                spec_varstring_bytes(spec_status_json()),
            ) {
                Some(f) => resp matches Some(v) && v@ == f,
                None => resp is None,
            })),
            encode_utf8(spec_status_json()).len() > 0x7fffffff ==> r == Err::<
                (ServerState, Option<Vec<u8>>),
                DataTypeEncodeError,
            >(DataTypeEncodeError::TryFromIntError),
    {
        let packet: CStatusResponse = CStatusResponse::new(status_json().to_owned());
        match packet.to_frame() {
            Ok(frame) => Ok((server_state, frame)),
            Err(e) => Err(e),
        }
    }
}

/// The ping request, identifier 1 in the status state: one raw timestamp.
#[derive(Debug, Clone, Copy)]
pub struct SPingRequest {
    /// The client's timestamp, echoed back verbatim.
    pub time: i64,
}

impl SPingRequest {
    /// Parse the body: eight big-endian bytes of timestamp.
    pub fn parse(bytes: VecDeque<u8>) -> (r: Result<SPingRequest, PacketParseError>)
        ensures
            bytes@.len() >= 8 ==> (r matches Ok(p) && p.time as u64 == spec_u64_from_be(
                bytes@.take(8),
            )),
            bytes@.len() < 8 ==> r == Err::<SPingRequest, PacketParseError>(
                PacketParseError::DataTypeDecodeError(DataTypeDecodeError::PrematureEnd),
            ),
    {
        let mut bytes = bytes;
        let time: i64 = match i64::decode(&mut bytes) {
            Ok(v) => v,
            Err(e) => {
                return Err(PacketParseError::DataTypeDecodeError(e));
            },
        };
        Ok(SPingRequest { time })
    }

    /// Echo the timestamp back and close the connection: a ping is always
    /// connection-terminal.
    pub fn handle(&self, _server_state: ServerState) -> (r: Result<
        (ServerState, Option<Vec<u8>>),
        DataTypeEncodeError,
    >)
        ensures
            r matches Ok((st, resp)) && st == ServerState::Closed && (match spec_frame(
                1,
                spec_u64_be_bytes(self.time as u64),
            ) {
                Some(f) => resp matches Some(v) && v@ == f,
                None => resp is None,
            }),
    {
        let packet: CPingResponse = CPingResponse::new(self.time);
        match packet.to_frame() {
            Ok(frame) => Ok((ServerState::Closed, frame)),
            Err(e) => Err(e),
        }
    }
}

/// What a status-state frame spells, at the specification level.
pub enum SpecStatusPacket {
    /// A status request (identifier 0).
    StatusRequest,
    /// A ping request (identifier 1) carrying this timestamp.
    PingRequest(i64),
}

/// Parse a whole frame payload in the status state: a VarInt packet
/// identifier, then the packet it names.
pub open spec fn spec_status_frame(s: Seq<u8>) -> Result<SpecStatusPacket, ParseFailure> {
    match spec_varint_decode(s) {
        VarParse::Parsed(id, u) => {
            let code = id as i32;
            let rest = s.skip(u as int);
            if code == 0 {
                Ok(SpecStatusPacket::StatusRequest)
            } else if code == 1 {
                if rest.len() >= 8 {
                    Ok(SpecStatusPacket::PingRequest(spec_u64_from_be(rest.take(8)) as u64 as i64))
                } else {
                    Err(ParseFailure::Decode(DecodeFailure::ShortFixed))
                }
            } else {
                Err(ParseFailure::UnknownPacket(code, ServerState::Status))
            }
        },
        VarParse::TooBig => Err(ParseFailure::Decode(DecodeFailure::VarNumberTooBig)),
        VarParse::Incomplete => Err(ParseFailure::Decode(DecodeFailure::ShortVarNumber)),
    }
}

/// The packets a client may send while the connection is in the status
/// state.
#[derive(Debug)]
pub enum StatusServerBoundPacket {
    /// A status request, identifier 0.
    StatusRequest(SStatusRequest),
    /// A ping request, identifier 1.
    PingRequest(SPingRequest),
}

impl StatusServerBoundPacket {
    /// Route a packet identifier to its packet and parse the body.
    pub fn parse(packet_id: i32, bytes: VecDeque<u8>) -> (r: Result<
        StatusServerBoundPacket,
        PacketParseError,
    >)
        ensures
            packet_id == 0 ==> (r matches Ok(StatusServerBoundPacket::StatusRequest(p))),
            packet_id == 1 && bytes@.len() >= 8 ==> (r matches Ok(
                StatusServerBoundPacket::PingRequest(p),
            ) && p.time as u64 == spec_u64_from_be(bytes@.take(8))),
            packet_id == 1 && bytes@.len() < 8 ==> r == Err::<
                StatusServerBoundPacket,
                PacketParseError,
            >(PacketParseError::DataTypeDecodeError(DataTypeDecodeError::PrematureEnd)),
            packet_id != 0 && packet_id != 1 ==> r == Err::<
                StatusServerBoundPacket,
                PacketParseError,
            >(PacketParseError::UnknownPacket(packet_id, ServerState::Status)),
    {
        if packet_id == 0 {
            match SStatusRequest::parse(bytes) {
                Ok(p) => Ok(StatusServerBoundPacket::StatusRequest(p)),
                Err(e) => Err(e),
            }
        } else if packet_id == 1 {
            match SPingRequest::parse(bytes) {
                Ok(p) => Ok(StatusServerBoundPacket::PingRequest(p)),
                Err(e) => Err(e),
            }
        } else {
            Err(PacketParseError::UnknownPacket(packet_id, ServerState::Status))
        }
    }

    /// Handle the packet: a status request answers and stays put, a ping
    /// request echoes and closes.
    pub fn handle(&self, server_state: ServerState) -> (r: Result<
        (ServerState, Option<Vec<u8>>),
        DataTypeEncodeError,
    >)
        ensures
            self matches StatusServerBoundPacket::StatusRequest(p) && encode_utf8(
                spec_status_json(),
            ).len() <= 0x7fffffff ==> (r matches Ok((st, resp)) && st == server_state && (
            match spec_frame(0, spec_varstring_bytes(spec_status_json())) {
                Some(f) => resp matches Some(v) && v@ == f,
                None => resp is None,
            })),
            self matches StatusServerBoundPacket::StatusRequest(p) && encode_utf8(
                spec_status_json(),
            ).len() > 0x7fffffff ==> r == Err::<
                (ServerState, Option<Vec<u8>>),
                DataTypeEncodeError,
            >(DataTypeEncodeError::TryFromIntError),
            self matches StatusServerBoundPacket::PingRequest(p) ==> (r matches Ok((st, resp))
                && st == ServerState::Closed && (match spec_frame(
                1,
                spec_u64_be_bytes(p.time as u64),
            ) {
                Some(f) => resp matches Some(v) && v@ == f,
                None => resp is None,
            })),
    {
        match self {
            StatusServerBoundPacket::StatusRequest(p) => p.handle(server_state),
            StatusServerBoundPacket::PingRequest(p) => p.handle(server_state),
        }
    }

    /// Parse a whole frame payload: the packet identifier, then the packet.
    pub fn try_from(value: VecDeque<u8>) -> (r: Result<StatusServerBoundPacket, PacketParseError>)
        ensures
            match spec_status_frame(value@) {
                Ok(SpecStatusPacket::StatusRequest) => (r matches Ok(
                    StatusServerBoundPacket::StatusRequest(p),
                )),
                Ok(SpecStatusPacket::PingRequest(t)) => (r matches Ok(
                    StatusServerBoundPacket::PingRequest(p),
                ) && p.time == t),
                Err(f) => (r matches Err(e) && parse_failure_matches(e, f)),
            },
    {
        let mut value = value;
        let id: VarInt = match VarInt::decode(&mut value) {
            Ok(v) => v,
            Err(e) => {
                return Err(PacketParseError::DataTypeDecodeError(e));
            },
        };
        let r: Result<StatusServerBoundPacket, PacketParseError> = StatusServerBoundPacket::parse(
            id.0,
            value,
        );
        proof {
            match &r {
                Ok(pk) => match pk {
                    StatusServerBoundPacket::PingRequest(p) => {
                        let t0 = p.time;
                        assert((t0 as u64) as i64 == t0) by (bit_vector);
                    },
                    StatusServerBoundPacket::StatusRequest(_) => {},
                },
                Err(_) => {},
            }
        }
        r
    }
}

} // verus!
