//! Binary codec and per-connection packet state machine for a length-prefixed,
//! variable-integer-framed network protocol: clients negotiate their intent
//! (status query or login) before the connection is handed to later phases.

pub mod state;
pub mod types;
pub mod protocol;
pub mod connection;
