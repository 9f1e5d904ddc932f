//! Protocol phase of one connection.

use vstd::prelude::*;

verus! {

/// The current protocol phase of a connection.
///
/// Every connection starts in `Handshake`; the handshake packet's next-state
/// field selects `Status`, `Login` or `Play`; `Closed` is terminal.
#[derive(Clone, Copy, Debug, PartialEq, Eq, Structural)]
pub enum ServerState {
    /// Initial phase: the first packet decides where the connection goes next.
    Handshake,
    /// Server-list ping phase, entered from `Handshake`.
    Status,
    /// Authentication phase, entered from `Handshake`.
    Login,
    /// Active play phase, after `Login`.
    Play,
    /// The connection is finished; no further packets are processed.
    Closed,
}

} // verus!
