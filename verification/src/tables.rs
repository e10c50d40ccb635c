//! Row types of the board's tables, and the color helper shared by all of
//! them.
//!
//! Timestamps are plain seconds (the session layer's clock has at least
//! second resolution); identities are opaque 256-bit values carried as two
//! halves.

use vstd::prelude::*;

verus! {

/// Width of the pixel grid.
pub const PIXEL_WIDTH: u32 = 1000;

/// Height of the pixel grid.
pub const PIXEL_HEIGHT: u32 = 1000;

/// Stable opaque identity of a connection, used as the key of the cooldown
/// ledger. The session layer guarantees it is stable per principal.
#[derive(Clone, Copy, PartialEq, Eq, Structural, Debug, Hash)]
pub struct Identity {
    pub hi: u128,
    pub lo: u128,
}

/// One grid cell. `pixel_id == width * y + x`; `color` is packed RGBA with
/// the alpha byte forced to fully opaque; `version` is the value of the
/// global edit counter at the time of the last color change (0 when the
/// pixel has never been painted).
#[derive(Clone, Copy, PartialEq, Eq, Structural, Debug)]
pub struct Pixel {
    pub pixel_id: u32,
    pub x: u32,
    pub y: u32,
    pub color: u32,
    pub version: u64,
}

/// A player's cooldown record: the earliest time (seconds) at which its next
/// paint action is allowed.
#[derive(Clone, Copy, PartialEq, Eq, Structural, Debug)]
pub struct Player {
    pub identity: Identity,
    pub next_action: u64,
}

/// Singleton configuration; read-only from the core's point of view.
/// `cooldown_seconds == 0` disables the cooldown entirely.
#[derive(Clone, Copy, PartialEq, Eq, Structural, Debug)]
pub struct Config {
    pub config_id: u32,
    pub cooldown_seconds: u64,
}

/// Singleton derived aggregate: number of currently connected players.
/// Advisory only; recomputed on a fixed interval.
#[derive(Clone, Copy, PartialEq, Eq, Structural, Debug)]
pub struct ServerStats {
    pub stats_id: u32,
    pub active_players: u64,
}

/// Why a paint request was rejected. Every rejection is a pure validation
/// failure: the request leaves no partial effect behind.
#[derive(Clone, Copy, PartialEq, Eq, Structural, Debug)]
pub enum PaintError {
    /// The pixel id lies at or beyond `width * height`.
    OutOfRange,
    /// The player painted too recently; retry after its deadline.
    OnCooldown,
    /// No session record exists for the requesting identity.
    UnknownPlayer,
}

/// Why a connect event was refused.
#[derive(Clone, Copy, PartialEq, Eq, Structural, Debug)]
pub enum SessionError {
    /// A second concurrent session for an identity that already has an
    /// active record; refused rather than corrupting the canonical record.
    DuplicateSession,
}

/// Why startup recovery of the canvas failed. Fatal: resuming with a bad
/// grid or a non-monotonic version counter would break the invariants.
#[derive(Clone, Copy, PartialEq, Eq, Structural, Debug)]
pub enum RecoveryError {
    /// The requested grid dimensions do not fit the pixel id space.
    GridTooLarge,
    /// A loaded row is not the well-formed pixel its position calls for.
    BadRow,
    /// The stored versions leave no room to resume the counter past them.
    CounterExhausted,
}

/// The fully-opaque alpha mask applied to every stored color.
pub open spec fn spec_to_rgb(rgba: u32) -> u32 {
    rgba | 0xFF
}

/// Forces the alpha byte of a packed RGBA color to fully opaque.
#[verifier::when_used_as_spec(spec_to_rgb)]
pub fn to_rgb(rgba: u32) -> (r: u32)
    ensures
        r == spec_to_rgb(rgba),
{
    rgba | 0xFF
}

/// Applying the opacity mask twice is the same as applying it once: a stored
/// color is already fully opaque.
pub proof fn lemma_to_rgb_idempotent(rgba: u32)
    ensures
        spec_to_rgb(spec_to_rgb(rgba)) == spec_to_rgb(rgba),
{
    assert((rgba | 0xFF) | 0xFF == rgba | 0xFF) by (bit_vector);
}

} // verus!
