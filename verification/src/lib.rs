//! Wire protocol of a small game gateway: frame headers, opcode-driven payload
//! decoding, outgoing packet encoding and the per-connection state machine.
//!
//! Every function here is pure: sockets, storage and threads belong to the
//! program that drives the state machine in [`tcp`].

pub mod endian;
pub mod income_packet;
pub mod outcome_packet;
pub mod tcp;
