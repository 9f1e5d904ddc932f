//! Packet contracts: per-state packet unions, their parsing and handling,
//! and the framing shared by every outgoing packet.

pub mod packet;
pub mod handshake;
pub mod status;
pub mod login;

pub use packet::PacketParseError;
pub use handshake::HandshakeServerBoundPacket;
pub use status::StatusServerBoundPacket;
pub use login::LoginServerBoundPacket;
