//! Errors of packet parsing, and the frame layout of outgoing packets.

use vstd::prelude::*;
use crate::state::ServerState;
use crate::types::DataTypeDecodeError;
use crate::types::var::VarInt;
use crate::types::var::spec_varint_bytes;

verus! {

/// Why a frame's payload could not be turned into a packet.
#[derive(Debug, Clone, PartialEq, Eq)]
pub enum PacketParseError {
    /// A field of the packet failed to decode.
    DataTypeDecodeError(DataTypeDecodeError),
    /// The leading packet identifier is not known in the current state.
    UnknownPacket(i32, ServerState),
}

/// The identity of a decode failure, without the diagnostic payload that
/// [`DataTypeDecodeError`] values carry, so specifications can name the
/// failure a byte sequence produces.
pub enum DecodeFailure {
    /// The source ran out inside a variable-length number or a counted run.
    ShortVarNumber,
    /// A variable-length number went past its bit budget.
    VarNumberTooBig,
    /// An integer field was out of the range its use calls for.
    IntOutOfRange,
    /// A string field held bytes that are not UTF-8.
    InvalidUtf8,
    /// The source ran out inside a fixed-width field.
    ShortFixed,
    /// The next-state code was outside its enumeration; carries the code.
    InvalidEnumVariant(i32),
}

/// Whether the error value `e` is the failure that `f` names.
///
/// The one restricted enumeration of this protocol is the handshake's
/// next-state field, so `InvalidEnumVariant` pins the enumeration name down.
pub open spec fn decode_failure_matches(e: DataTypeDecodeError, f: DecodeFailure) -> bool {
    match f {
        DecodeFailure::ShortVarNumber => e == DataTypeDecodeError::PrematureEndOfVarNumber,
        DecodeFailure::VarNumberTooBig => e == DataTypeDecodeError::VarNumberTooBig,
        DecodeFailure::IntOutOfRange => e == DataTypeDecodeError::TryFromIntError,
        DecodeFailure::InvalidUtf8 => e == DataTypeDecodeError::FromUtf8Error,
        DecodeFailure::ShortFixed => e == DataTypeDecodeError::PrematureEnd,
        DecodeFailure::InvalidEnumVariant(v) => (e matches
            DataTypeDecodeError::InvalidVarIntEnumVariant { variant, enumeration } && variant.0
            == v && enumeration@ == "State"@),
    }
}

/// The identity of a frame-parsing failure: a field-level decode failure,
/// or an identifier with no packet in the current state.
pub enum ParseFailure {
    /// A field of the packet failed to decode.
    Decode(DecodeFailure),
    /// No packet with this identifier exists in this state.
    UnknownPacket(i32, ServerState),
}

/// Whether the error value `e` is the frame-parsing failure that `f` names.
pub open spec fn parse_failure_matches(e: PacketParseError, f: ParseFailure) -> bool {
    match f {
        ParseFailure::Decode(d) => (e matches PacketParseError::DataTypeDecodeError(de)
            && decode_failure_matches(de, d)),
        ParseFailure::UnknownPacket(id, st) => e == PacketParseError::UnknownPacket(id, st),
    }
}

/// The frame that carries a packet: VarInt packet identifier, then the body,
/// the whole prefixed by its byte length as a VarInt; `None` when that
/// length does not fit a VarInt.
pub open spec fn spec_frame(packet_id: i32, body: Seq<u8>) -> Option<Seq<u8>> {
    let inner = spec_varint_bytes(packet_id as u32) + body;
    if inner.len() <= 0x7fffffff {
        Some(spec_varint_bytes(inner.len() as u32) + inner)
    } else {
        None
    }
}

/// Lay one outgoing packet into a frame: identifier, body, length prefix.
/// A packet too long for the length prefix yields nothing, and is dropped
/// rather than sent malformed.
pub fn frame_packet(packet_id: i32, body: Vec<u8>) -> (r: Option<Vec<u8>>)
    ensures
        match spec_frame(packet_id, body@) {
            Some(f) => (r matches Some(v) && v@ == f),
            None => r is None,
        },
{
    let ghost body0: Seq<u8> = body@;
    let mut body = body;
    let mut inner: Vec<u8> = Vec::new();
    let vi: VarInt = VarInt(packet_id);
    match vi.encode(&mut inner) {
        Ok(_) => {},
        Err(_) => {
            return None;
        },
    }
    inner.append(&mut body);
    if inner.len() > 0x7fffffff {
        return None;
    }
    let n: i32 = inner.len() as i32;
    proof {
        let len64 = inner.len() as u64;
        assert(len64 <= 0x7fffffff ==> ((len64 as i32) as u32) == len64) by (bit_vector);
    }
    let mut out: Vec<u8> = Vec::new();
    let lvi: VarInt = VarInt(n);
    match lvi.encode(&mut out) {
        Ok(_) => {},
        Err(_) => {
            return None;
        },
    }
    out.append(&mut inner);
    proof {
        assert(out@ =~= spec_frame(packet_id, body0).unwrap());
    }
    Some(out)
}

} // verus!
