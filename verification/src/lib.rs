//! Authoritative state synchronization for a small real-time multiplayer
//! maze session.
//!
//! The server owns the canonical [`state::GameState`]; clients submit
//! [`event::GameEvent`] requests, the server validates and applies them, and
//! accepted events are rebroadcast so every peer converges to the server's
//! state. This crate holds the event taxonomy, the wire codec, the
//! validate/consume state machine, and the per-tick decision logic of the
//! server loop; socket I/O and the transport layer live outside it.

use vstd::prelude::*;

pub mod client;
pub mod codec;
pub mod event;
pub mod server;
pub mod state;

verus! {

/// Greatest number of simultaneous players a session admits; player ids are
/// drawn from `[0, PLAYER_LIMIT)`.
pub const PLAYER_LIMIT: u8 = 4;

/// Shared handshake constant; a connection whose protocol id differs is
/// refused by the transport before any event is exchanged.
pub const PROTOCOL_ID: u64 = 7;

/// Tick period of both loops, in milliseconds.
pub const TICK_MILLIS: u64 = 16;

} // verus!
