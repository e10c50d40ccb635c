//! The board's state transitions: the paint transaction, the session
//! lifecycle, the stats refresh, and startup initialization.
//!
//! Each function is one serialized transaction against the shared state:
//! it either applies completely or — on any rejection — leaves every part
//! of the state exactly as it was.

use vstd::prelude::*;

use crate::canvas::{
    blank_pixel_at, canvas_unchanged, lemma_fresh_version_dominates, paints, Canvas,
};
use crate::cooldown::{
    archives, creates_active, ledger_unchanged, reschedules, restores, CooldownLedger,
};
use crate::tables::{spec_to_rgb, to_rgb, Config, Identity, PaintError, ServerStats, SessionError};

verus! {

/// The authoritative state of the board: the versioned canvas, the cooldown
/// ledger, the cooldown configuration, and the derived stats row.
pub struct Server {
    pub canvas: Canvas,
    pub ledger: CooldownLedger,
    pub config: Config,
    pub server_stats: Option<ServerStats>,
}

impl Server {
    /// Canvas and ledger invariants both hold.
    pub open spec fn wf(self) -> bool {
        &&& self.canvas.wf()
        &&& self.ledger.wf()
    }

    /// The pixel id names a cell of the grid.
    pub open spec fn in_range(self, pixel_id: u32) -> bool {
        (pixel_id as int) < self.canvas.area()
    }

    /// The pixel's row actually exists in the store.
    pub open spec fn pixel_present(self, pixel_id: u32) -> bool {
        (pixel_id as int) < self.canvas.pixels@.len()
    }

    /// The stored color of the pixel.
    pub open spec fn current_color(self, pixel_id: u32) -> u32 {
        self.canvas.pixels@[pixel_id as int].color
    }

    /// The request would repaint the pixel in the color it already has
    /// (after forcing full opacity): nothing to write.
    pub open spec fn no_op_repaint(self, pixel_id: u32, fill_color: u32) -> bool {
        &&& self.pixel_present(pixel_id)
        &&& self.current_color(pixel_id) == spec_to_rgb(fill_color)
    }

    /// A fresh, empty board: no pixels yet, nobody ever connected, stats
    /// not yet created, cooldown as configured.
    pub fn new(width: u32, height: u32, cooldown_seconds: u64) -> (s: Server)
        requires
            width as int * height as int <= u32::MAX as int,
        ensures
            s.wf(),
            s.canvas.width == width,
            s.canvas.height == height,
            s.canvas.pixels@.len() == 0,
            s.canvas.next_version == 1,
            s.ledger.players@.len() == 0,
            s.ledger.disconnected_players@.len() == 0,
            s.config == (Config { config_id: 0, cooldown_seconds }),
            s.server_stats == None::<ServerStats>,
    {
        Server {
            canvas: Canvas::new(width, height),
            ledger: CooldownLedger::new(),
            config: Config { config_id: 0, cooldown_seconds },
            server_stats: None,
        }
    }

    /// Startup: creates every missing pixel row as a blank pixel and the
    /// stats singleton when absent. Existing rows, the version counter, the
    /// ledger and the configuration are untouched, so running this again on
    /// an already initialized board changes nothing.
    pub fn init(&mut self)
        requires
            old(self).wf(),
        ensures
            final(self).wf(),
            final(self).canvas.complete(),
            final(self).canvas.width == old(self).canvas.width,
            final(self).canvas.height == old(self).canvas.height,
            final(self).canvas.next_version == old(self).canvas.next_version,
            forall|i: int|
                0 <= i < old(self).canvas.pixels@.len()
                    ==> final(self).canvas.pixels@[i] == old(self).canvas.pixels@[i],
            forall|i: int|
                old(self).canvas.pixels@.len() <= i < final(self).canvas.area()
                    ==> #[trigger] blank_pixel_at(final(self).canvas, i),
            ledger_unchanged(old(self).ledger, final(self).ledger),
            final(self).config == old(self).config,
            match old(self).server_stats {
                Some(st) => final(self).server_stats == Some(st),
                None => final(self).server_stats == Some(
                    ServerStats {
                        stats_id: 0,
                        active_players: old(self).ledger.players@.len() as u64,
                    },
                ),
            },
    {
        self.canvas.init();
        if self.server_stats.is_none() {
            let n = self.ledger.active_count();
            self.server_stats = Some(ServerStats { stats_id: 0, active_players: n as u64 });
        }
    }

    /// The paint transaction. Validates the pixel id, the player's session
    /// and its cooldown; repaints in the current color succeed without any
    /// effect; a genuine color change stamps the pixel with a fresh version
    /// and — unless the cooldown is disabled — consumes the player's action
    /// window. Every rejection leaves the whole state untouched.
    pub fn update_pixel_coord(
        &mut self,
        sender: Identity,
        now: u64,
        pixel_id: u32,
        fill_color: u32,
    ) -> (r: Result<(), PaintError>)
        requires
            old(self).wf(),
            old(self).canvas.next_version < u64::MAX,
            now + old(self).config.cooldown_seconds <= u64::MAX,
        ensures
            final(self).wf(),
            final(self).config == old(self).config,
            final(self).server_stats == old(self).server_stats,
            (r == Err::<(), PaintError>(PaintError::OutOfRange)) <==> !old(self).in_range(
                pixel_id,
            ),
            (r == Err::<(), PaintError>(PaintError::UnknownPlayer)) <==> (old(self).in_range(
                pixel_id,
            ) && !old(self).ledger.is_active(sender)),
            (r == Err::<(), PaintError>(PaintError::OnCooldown)) <==> (old(self).in_range(pixel_id)
                && old(self).ledger.is_active(sender) && old(self).ledger.active_next(sender)
                > now),
            (r is Ok) <==> (old(self).in_range(pixel_id) && old(self).ledger.is_active(sender)
                && old(self).ledger.active_next(sender) <= now),
            (r is Err) ==> canvas_unchanged(old(self).canvas, final(self).canvas)
                && ledger_unchanged(old(self).ledger, final(self).ledger),
            (r is Ok && !old(self).pixel_present(pixel_id)) ==> canvas_unchanged(
                old(self).canvas,
                final(self).canvas,
            ) && ledger_unchanged(old(self).ledger, final(self).ledger),
            (r is Ok && old(self).no_op_repaint(pixel_id, fill_color)) ==> canvas_unchanged(
                old(self).canvas,
                final(self).canvas,
            ) && ledger_unchanged(old(self).ledger, final(self).ledger),
            (r is Ok && old(self).pixel_present(pixel_id) && !old(self).no_op_repaint(
                pixel_id,
                fill_color,
            )) ==> {
                &&& paints(old(self).canvas, final(self).canvas, pixel_id as int, fill_color)
                &&& final(self).canvas.pixels@[pixel_id as int].version == old(
                    self,
                ).canvas.next_version
                &&& forall|j: int|
                    0 <= j < old(self).canvas.pixels@.len()
                        ==> final(self).canvas.pixels@[pixel_id as int].version > #[trigger] old(
                        self,
                    ).canvas.pixels@[j].version
                &&& (old(self).config.cooldown_seconds > 0 ==> reschedules(
                    old(self).ledger,
                    final(self).ledger,
                    sender,
                    (now + old(self).config.cooldown_seconds) as u64,
                ))
                &&& (old(self).config.cooldown_seconds == 0 ==> ledger_unchanged(
                    old(self).ledger,
                    final(self).ledger,
                ))
            },
    {
        let area = self.canvas.width as u64 * self.canvas.height as u64;
        if pixel_id as u64 >= area {
            return Err(PaintError::OutOfRange);
        }
        match self.ledger.get_active(sender) {
            None => Err(PaintError::UnknownPlayer),
            Some(player) => {
                if player.next_action > now {
                    return Err(PaintError::OnCooldown);
                }
                match self.canvas.get_pixel(pixel_id) {
                    None => Ok(()),
                    Some(pixel) => {
                        let rgb = to_rgb(fill_color);
                        if pixel.color == rgb {
                            return Ok(());
                        }
                        let _wrote = self.canvas.set_color(pixel_id, fill_color);
                        proof {
                            lemma_fresh_version_dominates(
                                old(self).canvas,
                                self.canvas,
                                pixel_id as int,
                                fill_color,
                            );
                        }
                        let cd = self.config.cooldown_seconds;
                        if cd > 0 {
                            self.ledger.record_action(sender, now, cd);
                        }
                        Ok(())
                    },
                }
            },
        }
    }

    /// A connect event. A previously seen, disconnected identity gets its
    /// archived record restored — deadline untouched, so reconnecting never
    /// resets a cooldown. A brand-new identity gets an active record that is
    /// immediately eligible (deliberately: a reconnect grace cooldown would
    /// reward churn). A connect for an identity that is already active is
    /// refused as a duplicate session and changes nothing.
    pub fn identity_connected(&mut self, sender: Identity, now: u64) -> (r: Result<
        (),
        SessionError,
    >)
        requires
            old(self).wf(),
        ensures
            final(self).wf(),
            canvas_unchanged(old(self).canvas, final(self).canvas),
            final(self).config == old(self).config,
            final(self).server_stats == old(self).server_stats,
            (r == Err::<(), SessionError>(SessionError::DuplicateSession)) <==> (!old(
                self,
            ).ledger.is_archived(sender) && old(self).ledger.is_active(sender)),
            (r is Err) ==> ledger_unchanged(old(self).ledger, final(self).ledger),
            old(self).ledger.is_archived(sender) ==> restores(
                old(self).ledger,
                final(self).ledger,
                sender,
            ),
            (!old(self).ledger.is_archived(sender) && !old(self).ledger.is_active(sender))
                ==> creates_active(old(self).ledger, final(self).ledger, sender, now),
    {
        if self.ledger.restore(sender) {
            return Ok(());
        }
        if self.ledger.contains_active(sender) {
            return Err(SessionError::DuplicateSession);
        }
        self.ledger.ensure_active(sender, now);
        Ok(())
    }

    /// A disconnect event: the identity's active record moves, deadline
    /// untouched, to the archived set. A disconnect for an identity with no
    /// active record changes nothing, so duplicate signals are harmless.
    pub fn identity_disconnected(&mut self, sender: Identity)
        requires
            old(self).wf(),
        ensures
            final(self).wf(),
            canvas_unchanged(old(self).canvas, final(self).canvas),
            final(self).config == old(self).config,
            final(self).server_stats == old(self).server_stats,
            old(self).ledger.is_active(sender) ==> archives(
                old(self).ledger,
                final(self).ledger,
                sender,
            ),
            !old(self).ledger.is_active(sender) ==> ledger_unchanged(
                old(self).ledger,
                final(self).ledger,
            ),
    {
        let _moved = self.ledger.archive(sender);
    }

    /// The periodic stats tick: overwrites the stats singleton with the
    /// current number of connected players. When the singleton is missing
    /// the tick is a no-op — the aggregate is advisory, never authoritative.
    pub fn calculate_server_stats(&mut self)
        requires
            old(self).wf(),
        ensures
            final(self).wf(),
            canvas_unchanged(old(self).canvas, final(self).canvas),
            ledger_unchanged(old(self).ledger, final(self).ledger),
            final(self).config == old(self).config,
            match old(self).server_stats {
                Some(st) => final(self).server_stats == Some(
                    ServerStats {
                        stats_id: st.stats_id,
                        active_players: old(self).ledger.players@.len() as u64,
                    },
                ),
                None => final(self).server_stats == None::<ServerStats>,
            },
    {
        match self.server_stats {
            Some(stats) => {
                let n = self.ledger.active_count();
                self.server_stats = Some(
                    ServerStats { stats_id: stats.stats_id, active_players: n as u64 },
                );
            },
            None => {},
        }
    }
}

/// A paint request for the color a pixel already shows is always a no-op
/// request: a stored color is already fully opaque, so forcing opacity on it
/// changes nothing, and the transaction's contract then leaves the canvas,
/// the version counter and every cooldown record untouched.
pub proof fn lemma_repaint_current_color_is_no_op(s: Server, pixel_id: u32)
    requires
        s.wf(),
        s.pixel_present(pixel_id),
    ensures
        s.no_op_repaint(pixel_id, s.current_color(pixel_id)),
{
    assert(s.canvas.pixel_ok(pixel_id as int));
}

/// Paint transactions of distinct players on distinct pixels are logically
/// independent: after one player's successful color change, every other
/// player's session membership and deadline — and with them its eligibility —
/// are exactly as before, and the two freshly stamped versions are distinct
/// and ordered as the writes were, both above everything stored before the
/// first write.
pub proof fn lemma_independent_paints(
    pre: Server,
    mid: Server,
    post: Server,
    id1: Identity,
    id2: Identity,
    p1: int,
    p2: int,
    c1: u32,
    c2: u32,
    next1: u64,
)
    requires
        pre.canvas.wf(),
        id1 != id2,
        p1 != p2,
        paints(pre.canvas, mid.canvas, p1, c1),
        paints(mid.canvas, post.canvas, p2, c2),
        reschedules(pre.ledger, mid.ledger, id1, next1) || ledger_unchanged(
            pre.ledger,
            mid.ledger,
        ),
    ensures
        mid.ledger.is_active(id2) <==> pre.ledger.is_active(id2),
        pre.ledger.is_active(id2) ==> mid.ledger.active_next(id2) == pre.ledger.active_next(id2),
        post.canvas.pixels@[p1].version == pre.canvas.next_version,
        post.canvas.pixels@[p2].version == pre.canvas.next_version + 1,
        post.canvas.pixels@[p1].version != post.canvas.pixels@[p2].version,
        post.canvas.pixels@[p1].version < post.canvas.pixels@[p2].version,
        forall|j: int|
            0 <= j < pre.canvas.pixels@.len() ==> post.canvas.pixels@[p1].version > #[trigger] pre.canvas.pixels@[j].version
                && post.canvas.pixels@[p2].version > pre.canvas.pixels@[j].version,
{
    crate::canvas::lemma_distinct_paints_ordered(
        pre.canvas,
        mid.canvas,
        post.canvas,
        p1,
        p2,
        c1,
        c2,
    );
}

} // verus!
