use pixel_canvas::canvas::Canvas;
use pixel_canvas::server::Server;
use pixel_canvas::tables::{
    to_rgb, Identity, PaintError, Pixel, RecoveryError, ServerStats, SessionError,
};

fn ident(n: u128) -> Identity {
    Identity { hi: 0, lo: n }
}

#[test]
fn to_rgb_forces_full_opacity() {
    assert_eq!(to_rgb(0x12345600), 0x123456FF);
    assert_eq!(to_rgb(0xFFFFFFFF), 0xFFFFFFFF);
    assert_eq!(to_rgb(0x00000000), 0x000000FF);
    assert_eq!(to_rgb(0x00FF0000), 0x00FF00FF);
}

#[test]
fn init_fills_grid_with_blank_pixels() {
    let mut s = Server::new(4, 3, 5);
    s.init();
    assert_eq!(s.canvas.pixels.len(), 12);
    for (i, p) in s.canvas.pixels.iter().enumerate() {
        assert_eq!(p.pixel_id as usize, i);
        assert_eq!(p.color, 0xFFFFFFFF);
        assert_eq!(p.version, 0);
        assert_eq!((p.y * 4 + p.x) as usize, i);
    }
    // pixel 7 in a width-4 grid sits at (3, 1)
    assert_eq!(s.canvas.pixels[7].x, 3);
    assert_eq!(s.canvas.pixels[7].y, 1);
    assert_eq!(s.canvas.next_version, 1);
    assert_eq!(
        s.server_stats,
        Some(ServerStats { stats_id: 0, active_players: 0 })
    );
}

#[test]
fn init_twice_changes_nothing() {
    let mut s = Server::new(4, 3, 5);
    s.init();
    assert!(s.identity_connected(ident(1), 0).is_ok());
    assert_eq!(s.update_pixel_coord(ident(1), 0, 7, 0x11223300), Ok(()));
    let colors: Vec<u32> = s.canvas.pixels.iter().map(|p| p.color).collect();
    s.init();
    assert_eq!(s.canvas.pixels.len(), 12);
    let colors2: Vec<u32> = s.canvas.pixels.iter().map(|p| p.color).collect();
    assert_eq!(colors, colors2);
    assert_eq!(s.canvas.next_version, 2);
}

#[test]
fn paint_boundary_ids() {
    // the id one past the last cell is rejected; the last cell succeeds
    let mut s = Server::new(1000, 1000, 60);
    s.init();
    assert!(s.identity_connected(ident(7), 0).is_ok());
    assert_eq!(
        s.update_pixel_coord(ident(7), 0, 1_000_000, 0x112233),
        Err(PaintError::OutOfRange)
    );
    assert_eq!(s.canvas.next_version, 1);
    assert_eq!(s.update_pixel_coord(ident(7), 0, 999_999, 0x112233), Ok(()));
    assert_eq!(s.canvas.pixels[999_999].color, to_rgb(0x112233));
    assert_eq!(s.canvas.pixels[999_999].version, 1);
}

#[test]
fn cooldown_scenario_on_large_grid() {
    // grid 1000x1000, cooldown 60 s: paint, free repaint, cooldown rejection,
    // then a new window after the deadline
    let mut s = Server::new(1000, 1000, 60);
    s.init();
    let a = ident(0xA);
    assert!(s.identity_connected(a, 0).is_ok());
    // eligible immediately after the first-ever connect
    assert!(s.ledger.is_eligible(a, 0));

    assert_eq!(s.update_pixel_coord(a, 0, 500_500, 0x00FF00), Ok(()));
    assert_eq!(s.canvas.pixels[500_500].color, to_rgb(0x00FF00));
    assert_eq!(s.canvas.pixels[500_500].version, 1);
    assert_eq!(s.ledger.get_active(a).unwrap().next_action, 60);

    // the cooldown gate comes before the no-op color comparison, so even the
    // same color is rejected while the window is open, without any effect
    assert_eq!(
        s.update_pixel_coord(a, 10, 500_500, 0x00FF00),
        Err(PaintError::OnCooldown)
    );
    assert_eq!(s.canvas.pixels[500_500].version, 1);
    assert_eq!(s.canvas.next_version, 2);
    assert_eq!(s.ledger.get_active(a).unwrap().next_action, 60);

    // once the window is over, a same-color repaint is a free no-op
    assert_eq!(s.update_pixel_coord(a, 60, 500_500, 0x00FF00), Ok(()));
    assert_eq!(s.canvas.pixels[500_500].version, 1);
    assert_eq!(s.ledger.get_active(a).unwrap().next_action, 60);

    // a different color while on cooldown is rejected without effect
    assert_eq!(
        s.update_pixel_coord(a, 30, 500_500, 0xFF0000),
        Err(PaintError::OnCooldown)
    );
    assert_eq!(s.canvas.pixels[500_500].color, to_rgb(0x00FF00));
    assert_eq!(s.canvas.next_version, 2);

    // past the deadline the paint succeeds and the window restarts
    assert_eq!(s.update_pixel_coord(a, 61, 500_500, 0xFF0000), Ok(()));
    assert_eq!(s.canvas.pixels[500_500].version, 2);
    assert_eq!(s.ledger.get_active(a).unwrap().next_action, 121);
}

#[test]
fn repaint_current_color_is_free() {
    let mut s = Server::new(8, 8, 60);
    s.init();
    let a = ident(1);
    assert!(s.identity_connected(a, 0).is_ok());
    // the blank color is already stored: a no-op for any pixel
    assert_eq!(s.update_pixel_coord(a, 0, 3, 0xFFFFFFFF), Ok(()));
    assert_eq!(s.canvas.pixels[3].version, 0);
    assert_eq!(s.canvas.next_version, 1);
    // no cooldown was consumed, so a real paint still works immediately
    assert_eq!(s.update_pixel_coord(a, 0, 3, 0x0000FF00), Ok(()));
    assert_eq!(s.canvas.pixels[3].version, 1);
}

#[test]
fn on_cooldown_rejects_any_color_without_mutation() {
    let mut s = Server::new(8, 8, 100);
    s.init();
    let a = ident(2);
    assert!(s.identity_connected(a, 0).is_ok());
    assert_eq!(s.update_pixel_coord(a, 0, 0, 0x01020300), Ok(()));
    for color in [0u32, 0xDEADBEEF, 0x01020300, 0xFFFFFFFF] {
        assert_eq!(
            s.update_pixel_coord(a, 99, 1, color),
            Err(PaintError::OnCooldown)
        );
    }
    assert_eq!(s.canvas.pixels[1].color, 0xFFFFFFFF);
    assert_eq!(s.canvas.pixels[1].version, 0);
    assert_eq!(s.canvas.next_version, 2);
    assert_eq!(s.ledger.get_active(a).unwrap().next_action, 100);
}

#[test]
fn unknown_player_is_rejected() {
    let mut s = Server::new(8, 8, 60);
    s.init();
    assert_eq!(
        s.update_pixel_coord(ident(3), 0, 0, 0x123456),
        Err(PaintError::UnknownPlayer)
    );
    assert_eq!(s.canvas.next_version, 1);
}

#[test]
fn duplicate_connect_is_refused_without_damage() {
    let mut s = Server::new(8, 8, 60);
    s.init();
    let a = ident(4);
    assert!(s.identity_connected(a, 0).is_ok());
    assert_eq!(s.update_pixel_coord(a, 0, 0, 0x123456), Ok(()));
    assert_eq!(
        s.identity_connected(a, 10),
        Err(SessionError::DuplicateSession)
    );
    // still exactly one record, deadline untouched
    assert_eq!(s.ledger.active_count(), 1);
    assert_eq!(s.ledger.get_active(a).unwrap().next_action, 60);
}

#[test]
fn reconnect_preserves_cooldown_deadline() {
    let mut s = Server::new(8, 8, 60);
    s.init();
    let a = ident(5);
    assert!(s.identity_connected(a, 0).is_ok());
    assert_eq!(s.update_pixel_coord(a, 0, 0, 0x123456), Ok(()));
    assert_eq!(s.ledger.get_active(a).unwrap().next_action, 60);

    s.identity_disconnected(a);
    assert!(s.ledger.get_active(a).is_none());
    assert_eq!(s.ledger.active_count(), 0);

    // reconnecting does not reset the deadline
    assert!(s.identity_connected(a, 5).is_ok());
    assert_eq!(s.ledger.get_active(a).unwrap().next_action, 60);
    assert_eq!(
        s.update_pixel_coord(a, 30, 1, 0x654321),
        Err(PaintError::OnCooldown)
    );
    assert_eq!(s.update_pixel_coord(a, 60, 1, 0x654321), Ok(()));
}

#[test]
fn duplicate_disconnect_is_harmless() {
    let mut s = Server::new(8, 8, 60);
    s.init();
    let a = ident(6);
    assert!(s.identity_connected(a, 0).is_ok());
    s.identity_disconnected(a);
    s.identity_disconnected(a);
    assert_eq!(s.ledger.active_count(), 0);
    assert!(s.identity_connected(a, 1).is_ok());
    assert_eq!(s.ledger.active_count(), 1);
}

#[test]
fn distinct_players_distinct_pixels_all_succeed_ordered() {
    let mut s = Server::new(16, 16, 60);
    s.init();
    let players = [ident(10), ident(11), ident(12)];
    let pixels: [u32; 3] = [0, 37, 255];
    for p in &players {
        assert!(s.identity_connected(*p, 0).is_ok());
    }
    for (k, (p, px)) in players.iter().zip(pixels.iter()).enumerate() {
        assert_eq!(s.update_pixel_coord(*p, 0, *px, 0x0A0B0C00), Ok(()));
        assert_eq!(s.canvas.pixels[*px as usize].version, (k + 1) as u64);
    }
    let v: Vec<u64> = pixels.iter().map(|px| s.canvas.pixels[*px as usize].version).collect();
    assert!(v[0] < v[1] && v[1] < v[2]);
    assert_eq!(s.canvas.next_version, 4);
}

#[test]
fn disabled_cooldown_never_blocks() {
    let mut s = Server::new(8, 8, 0);
    s.init();
    let a = ident(20);
    assert!(s.identity_connected(a, 0).is_ok());
    assert_eq!(s.update_pixel_coord(a, 0, 0, 0x111111), Ok(()));
    assert_eq!(s.update_pixel_coord(a, 0, 0, 0x222222), Ok(()));
    assert_eq!(s.update_pixel_coord(a, 0, 1, 0x333333), Ok(()));
    // the record still exists but its deadline never moved
    assert_eq!(s.ledger.get_active(a).unwrap().next_action, 0);
    assert_eq!(s.canvas.pixels[0].version, 2);
    assert_eq!(s.canvas.pixels[1].version, 3);
}

#[test]
fn stats_tick_recomputes_active_players() {
    let mut s = Server::new(4, 4, 60);
    s.init();
    assert!(s.identity_connected(ident(30), 0).is_ok());
    assert!(s.identity_connected(ident(31), 0).is_ok());
    s.calculate_server_stats();
    assert_eq!(
        s.server_stats,
        Some(ServerStats { stats_id: 0, active_players: 2 })
    );
    s.identity_disconnected(ident(30));
    s.calculate_server_stats();
    assert_eq!(
        s.server_stats,
        Some(ServerStats { stats_id: 0, active_players: 1 })
    );
}

#[test]
fn stats_tick_without_singleton_is_noop() {
    // before init there is no stats row; the tick must not create one
    let mut s = Server::new(4, 4, 60);
    assert!(s.identity_connected(ident(32), 0).is_ok());
    s.calculate_server_stats();
    assert_eq!(s.server_stats, None);
}

#[test]
fn paint_on_missing_row_is_defensive_noop() {
    // an uninitialized board: the id is in range but no row exists yet
    let mut s = Server::new(4, 4, 60);
    let a = ident(40);
    assert!(s.identity_connected(a, 0).is_ok());
    assert_eq!(s.update_pixel_coord(a, 0, 2, 0x123456), Ok(()));
    assert_eq!(s.canvas.pixels.len(), 0);
    assert_eq!(s.canvas.next_version, 1);
    // and the cooldown was not consumed
    assert_eq!(s.ledger.get_active(a).unwrap().next_action, 0);
}

#[test]
fn get_pixel_present_and_absent() {
    let mut s = Server::new(4, 4, 60);
    s.init();
    let p = s.canvas.get_pixel(5).unwrap();
    assert_eq!(p.pixel_id, 5);
    assert_eq!((p.x, p.y), (1, 1));
    assert!(s.canvas.get_pixel(16).is_none());
}

#[test]
fn eligibility_reflects_deadline() {
    let mut s = Server::new(4, 4, 30);
    s.init();
    let a = ident(60);
    assert!(s.identity_connected(a, 0).is_ok());
    assert!(s.ledger.is_eligible(a, 0));
    assert_eq!(s.update_pixel_coord(a, 0, 0, 0x123456), Ok(()));
    assert!(!s.ledger.is_eligible(a, 29));
    assert!(s.ledger.is_eligible(a, 30));
    // an identity the board has never seen is eligible by definition
    assert!(s.ledger.is_eligible(ident(61), 0));
    assert!(!s.ledger.contains_active(ident(61)));
}

fn blank_row(i: u32, width: u32, version: u64) -> Pixel {
    Pixel { pixel_id: i, x: i % width, y: i / width, color: 0xFFFFFFFF, version }
}

#[test]
fn recovery_resumes_counter_past_largest_version() {
    let rows = vec![
        blank_row(0, 2, 0),
        blank_row(1, 2, 7),
        blank_row(2, 2, 3),
    ];
    let c = Canvas::from_rows(2, 2, rows).unwrap();
    assert_eq!(c.next_version, 8);
    assert_eq!(c.pixels.len(), 3);
    // the next write gets a version above everything recovered
    let mut s = Server { canvas: c, ..Server::new(2, 2, 0) };
    s.init();
    let a = ident(50);
    assert!(s.identity_connected(a, 0).is_ok());
    assert_eq!(s.update_pixel_coord(a, 0, 2, 0x123456), Ok(()));
    assert_eq!(s.canvas.pixels[2].version, 8);
}

#[test]
fn recovery_rejects_bad_rows() {
    // wrong id in position 1
    let rows = vec![blank_row(0, 2, 0), blank_row(0, 2, 0)];
    assert!(matches!(Canvas::from_rows(2, 2, rows), Err(RecoveryError::BadRow)));
    // color with a transparent alpha byte
    let mut rows2 = vec![blank_row(0, 2, 0)];
    rows2[0].color = 0x11223300;
    assert!(matches!(Canvas::from_rows(2, 2, rows2), Err(RecoveryError::BadRow)));
    // more rows than cells
    let rows3 = vec![blank_row(0, 1, 0), blank_row(1, 1, 0)];
    assert!(matches!(Canvas::from_rows(1, 1, rows3), Err(RecoveryError::BadRow)));
}

#[test]
fn recovery_rejects_oversized_grid_and_exhausted_counter() {
    assert!(matches!(
        Canvas::from_rows(70_000, 70_000, Vec::new()),
        Err(RecoveryError::GridTooLarge)
    ));
    let rows = vec![blank_row(0, 2, u64::MAX)];
    assert!(matches!(
        Canvas::from_rows(2, 2, rows),
        Err(RecoveryError::CounterExhausted)
    ));
}
