//! Tests of packet parsing, dispatch, the connection state machine, and the
//! legacy server-list ping.

use std::collections::VecDeque;

use atmosphere_mc::connection::{
    handle_packet, is_legacy_ping, legacy_kick_response, legacy_ping_magic,
};
use atmosphere_mc::protocol::handshake::{HandshakeServerBoundPacket, State};
use atmosphere_mc::protocol::login::LoginServerBoundPacket;
use atmosphere_mc::protocol::packet::{frame_packet, PacketParseError};
use atmosphere_mc::protocol::status::{status_json, CPingResponse, CStatusResponse};
use atmosphere_mc::state::ServerState;
use atmosphere_mc::types::var::{VarInt, VarIntDecoder, VarIntStep, VarString};
use atmosphere_mc::types::{Array, DataType, DataTypeDecodeError, ReadBytes, Uuid};

fn handshake_payload(protocol: i32, addr: &str, port: u16, next: i32) -> Vec<u8> {
    let mut p: Vec<u8> = vec![0x00]; // packet identifier 0: handshake
    VarInt(protocol).encode(&mut p).unwrap();
    VarString::new(addr.to_string()).encode(&mut p).unwrap();
    port.encode(&mut p).unwrap();
    VarInt(next).encode(&mut p).unwrap();
    p
}

#[test]
fn handshake_next_states() {
    // next-state 1, 2 and 3 select Status, Login and Play.
    let cases: [(i32, ServerState); 3] = [
        (1, ServerState::Status),
        (2, ServerState::Login),
        (3, ServerState::Play),
    ];
    for (next, expected) in cases {
        let payload: Vec<u8> = handshake_payload(768, "localhost", 25565, next);
        let r = handle_packet(ServerState::Handshake, payload).unwrap();
        assert_eq!(r, (expected, None));
    }
}

#[test]
fn handshake_invalid_next_state() {
    // next-state 99 is no variant of the enumeration; the frame is rejected
    // and the caller keeps its state.
    let payload: Vec<u8> = handshake_payload(768, "localhost", 25565, 99);
    let r = handle_packet(ServerState::Handshake, payload);
    match r {
        Err(PacketParseError::DataTypeDecodeError(
            DataTypeDecodeError::InvalidVarIntEnumVariant {
                variant,
                enumeration,
            },
        )) => {
            assert_eq!(variant, VarInt(99));
            assert_eq!(enumeration, "State".to_string());
        }
        other => panic!("expected an invalid-enum-variant error, got {other:?}"),
    }
}

#[test]
fn handshake_fields_parsed() {
    let mut payload: VecDeque<u8> = VecDeque::from(handshake_payload(768, "localhost", 25565, 1));
    // Skip the packet identifier the union strips before a packet parse.
    let id: VarInt = VarInt::decode(&mut payload).unwrap();
    assert_eq!(id, VarInt(0));
    let packet = HandshakeServerBoundPacket::parse(id.0, payload).unwrap();
    let HandshakeServerBoundPacket::Handshake(p) = packet;
    assert_eq!(p.protocol_version, VarInt(768));
    assert_eq!(p.server_address.get(), "localhost".to_string());
    assert_eq!(p.server_port, 25565);
    assert_eq!(p.next_state, State::Status);
}

#[test]
fn end_to_end_status_ping() {
    // Handshake(protocol 768, "localhost", 25565, next-state 1) ...
    let mut state: ServerState = ServerState::Handshake;
    let p1: Vec<u8> = handshake_payload(768, "localhost", 25565, 1);
    let (s1, r1) = handle_packet(state, p1).unwrap();
    assert_eq!(s1, ServerState::Status);
    assert_eq!(r1, None);
    state = s1;

    // ... then StatusRequest: the fixed JSON document comes back and the
    // state stays Status ...
    let p2: Vec<u8> = vec![0x00];
    let (s2, r2) = handle_packet(state, p2).unwrap();
    assert_eq!(s2, ServerState::Status);
    let frame: Vec<u8> = r2.unwrap();
    let mut deque: VecDeque<u8> = VecDeque::from(frame);
    let length: VarInt = VarInt::decode(&mut deque).unwrap();
    assert_eq!(length.0 as usize, deque.len());
    assert_eq!(VarInt::decode(&mut deque).unwrap(), VarInt(0));
    let json: VarString = VarString::decode(&mut deque).unwrap();
    assert_eq!(json.get(), status_json().to_string());
    assert_eq!(deque.len(), 0);
    state = s2;

    // ... then PingRequest(42): the timestamp is echoed and the connection
    // transitions to Closed.
    let mut p3: Vec<u8> = vec![0x01];
    42i64.encode(&mut p3).unwrap();
    let (s3, r3) = handle_packet(state, p3).unwrap();
    assert_eq!(s3, ServerState::Closed);
    let pong: Vec<u8> = r3.unwrap();
    assert_eq!(
        pong,
        vec![9, 1, 0x00, 0x00, 0x00, 0x00, 0x00, 0x00, 0x00, 42]
    );
}

#[test]
fn unknown_packet_in_status() {
    // An unrecognised identifier in the status state is rejected as such;
    // the caller keeps the connection in Status for the next frame.
    let r = handle_packet(ServerState::Status, vec![0x05]);
    assert_eq!(
        r,
        Err(PacketParseError::UnknownPacket(5, ServerState::Status))
    );
}

#[test]
fn closed_state_ignores_data() {
    let r = handle_packet(ServerState::Closed, vec![0x00]).unwrap();
    assert_eq!(r, (ServerState::Closed, None));
}

#[test]
fn login_success_parsed() {
    let uuid_value: u128 = 0x00112233_44556677_8899aabb_ccddeeff;
    let mut payload: Vec<u8> = vec![0x02];
    Uuid(uuid_value).encode(&mut payload).unwrap();
    VarString::new("Notch".to_string()).encode(&mut payload).unwrap();
    let packet = LoginServerBoundPacket::try_from(VecDeque::from(payload)).unwrap();
    let LoginServerBoundPacket::LoginSuccess(p) = packet;
    assert_eq!(p.uuid, Uuid(uuid_value));
    assert_eq!(p.username.get(), "Notch".to_string());
}

#[test]
fn login_unknown_packet() {
    let r = LoginServerBoundPacket::try_from(VecDeque::from(vec![0x07]));
    match r {
        Err(PacketParseError::UnknownPacket(7, ServerState::Login)) => {}
        other => panic!("expected an unknown-packet error, got {other:?}"),
    }
}

#[test]
fn frame_layout() {
    // One body byte: frame is [length 2][identifier 0][body 0x2a].
    assert_eq!(frame_packet(0, vec![0x2a]), Some(vec![2, 0, 0x2a]));
}

#[test]
fn ping_response_frame() {
    let r = CPingResponse::new(42).to_frame().unwrap().unwrap();
    assert_eq!(r, vec![9, 1, 0, 0, 0, 0, 0, 0, 0, 42]);
}

#[test]
fn status_response_frame() {
    let r = CStatusResponse::new("hi".to_string()).to_frame().unwrap().unwrap();
    assert_eq!(r, vec![4, 0, 2, b'h', b'i']);
}

#[test]
fn varint_decoder_steps() {
    let mut d = VarIntDecoder::new();
    assert_eq!(d.step(0xdd), VarIntStep::More);
    assert_eq!(d.step(0xc7), VarIntStep::More);
    assert_eq!(d.step(0x01), VarIntStep::Done(VarInt(25565)));

    // The legacy-ping sentinel: 0xFE 0x01 reads as length 254.
    assert_eq!(d.step(0xfe), VarIntStep::More);
    assert_eq!(d.step(0x01), VarIntStep::Done(VarInt(254)));

    // Five continuation-marked groups exceed the 32-bit budget.
    for _ in 0..4 {
        assert_eq!(d.step(0x80), VarIntStep::More);
    }
    assert_eq!(d.step(0x80), VarIntStep::TooBig);
}

#[test]
fn legacy_ping_detection() {
    let magic: Vec<u8> = legacy_ping_magic();
    assert_eq!(magic.len(), 25);
    assert!(is_legacy_ping(&magic));

    let mut other: Vec<u8> = magic.clone();
    other[24] = 0x00;
    assert!(!is_legacy_ping(&other));
    assert!(!is_legacy_ping(&magic[..24]));
}

#[test]
fn legacy_kick_bytes() {
    let expected: Vec<u8> = vec![
        0xff, 0x00, 0x25, 0x00, 0xa7, 0x00, 0x31, 0x00, 0x00, 0x00, 0x31, 0x00, 0x32, 0x00,
        0x37, 0x00, 0x00, 0x00, 0x31, 0x00, 0x2e, 0x00, 0x32, 0x00, 0x31, 0x00, 0x2e, 0x00,
        0x32, 0x00, 0x00, 0x00, 0x41, 0x00, 0x74, 0x00, 0x6d, 0x00, 0x6f, 0x00, 0x73, 0x00,
        0x70, 0x00, 0x68, 0x00, 0x65, 0x00, 0x72, 0x00, 0x65, 0x00, 0x4d, 0x00, 0x43, 0x00,
        0x20, 0x00, 0x2d, 0x00, 0x20, 0x00, 0x56, 0x00, 0x6f, 0x00, 0x69, 0x00, 0x64, 0x00,
        0x00, 0x00, 0x30, 0x00, 0x00, 0x00, 0x30,
    ];
    assert_eq!(legacy_kick_response(), expected);
}

#[test]
fn array_codec() {
    let arr: Array<u8> = Array::decode(&mut VecDeque::from(vec![0x02, 10, 11])).unwrap();
    assert_eq!(arr.0, vec![10, 11]);

    let mut buf: Vec<u8> = Vec::new();
    Array(vec![10u8, 11]).encode(&mut buf).unwrap();
    assert_eq!(buf, vec![0x02, 10, 11]);
}

#[test]
fn array_round_trip() {
    // Decoding an encoded run reproduces the elements in order and leaves
    // trailing bytes untouched.
    let values: Vec<u8> = vec![0, 1, 127, 128, 255];
    let mut buf: Vec<u8> = Vec::new();
    Array(values.clone()).encode(&mut buf).unwrap();
    buf.push(0xAA);
    let mut deque: VecDeque<u8> = VecDeque::from(buf);
    let back: Array<u8> = Array::decode(&mut deque).unwrap();
    assert_eq!(back.0, values);
    assert_eq!(deque.len(), 1);

    // A short Uuid read fails with the fixed-width error kind.
    let r = Uuid::decode(&mut VecDeque::from(vec![0x00, 0x01]));
    assert_eq!(r, Err(DataTypeDecodeError::PrematureEnd));
}

#[test]
fn uuid_codec() {
    let value: u128 = 0x00112233_44556677_8899aabb_ccddeeff;
    let mut buf: Vec<u8> = Vec::new();
    Uuid(value).encode(&mut buf).unwrap();
    assert_eq!(
        buf,
        vec![
            0x00, 0x11, 0x22, 0x33, 0x44, 0x55, 0x66, 0x77, 0x88, 0x99, 0xaa, 0xbb, 0xcc, 0xdd,
            0xee, 0xff
        ]
    );
    assert_eq!(Uuid::decode(&mut VecDeque::from(buf)), Ok(Uuid(value)));
}

#[test]
fn read_bytes_helpers() {
    let mut deque: VecDeque<u8> = VecDeque::from(vec![1, 2, 3, 4]);
    assert_eq!(deque.read_byte(), Ok(1));
    assert_eq!(deque.read_bytes(2), Ok(vec![2, 3]));
    assert_eq!(deque.read_bytes(2), Err(DataTypeDecodeError::PrematureEnd));
}
