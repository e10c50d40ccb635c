//! Server-side logic for a shared, cooldown-gated pixel canvas.
//!
//! The library models the authoritative state of the board: a versioned grid
//! of pixels, a ledger of per-player cooldowns split into connected and
//! disconnected sets, the cooldown configuration, and a derived player-count
//! aggregate. Every state transition (painting a pixel, a player connecting
//! or disconnecting, the periodic stats refresh) is a verified function with
//! a contract describing exactly what it changes and which errors it returns.
//!
//! Storage and transport (the transactional table store, the session layer
//! that delivers connect/disconnect events and the current time) are outside
//! collaborators: callers read rows and clocks there, hand plain values in,
//! and write the resulting state back.

pub mod canvas;
pub mod cooldown;
pub mod server;
pub mod tables;
