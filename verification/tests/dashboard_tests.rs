use predicate_authorityd::dashboard::{gate_title, tokens_saved, uptime_str, DashboardKey, DashboardState};

#[test]
fn keys_drive_the_dashboard() {
    let mut s = DashboardState::new();
    s.handle_key(DashboardKey::Char('j'), 10);
    s.handle_key(DashboardKey::Down, 10);
    assert_eq!(s.scroll_offset, 2);
    s.handle_key(DashboardKey::Char('k'), 10);
    assert_eq!(s.scroll_offset, 1);
    s.handle_key(DashboardKey::Char('G'), 10);
    assert_eq!(s.scroll_offset, 9);
    s.handle_key(DashboardKey::Char('g'), 10);
    assert_eq!(s.scroll_offset, 0);
    s.handle_key(DashboardKey::Up, 10);
    assert_eq!(s.scroll_offset, 0);
    s.handle_key(DashboardKey::Char('P'), 10);
    assert!(s.paused);
    s.handle_key(DashboardKey::Char('?'), 10);
    assert!(s.show_help);
    s.handle_key(DashboardKey::Char('q'), 10);
    assert!(!s.should_quit);
    s.handle_key(DashboardKey::Esc, 10);
    assert!(!s.show_help);
    s.handle_key(DashboardKey::Char('Q'), 10);
    assert!(s.should_quit);
    let mut t = DashboardState::new();
    t.handle_key(DashboardKey::Char('G'), 0);
    assert_eq!(t.scroll_offset, 0);
    t.handle_key(DashboardKey::Other, 0);
    assert_eq!(t, DashboardState::new());
}

#[test]
fn uptime_and_titles() {
    assert_eq!(uptime_str(5), "5s");
    assert_eq!(uptime_str(65), "1m 05s");
    assert_eq!(uptime_str(3600 * 2 + 60 * 34 + 9), "2h 34m");
    assert_eq!(uptime_str(0), "0s");
    assert_eq!(gate_title(0, 4), " LIVE AUTHORITY GATE ");
    assert_eq!(gate_title(2, 40), " LIVE AUTHORITY GATE [3/40] ");
    assert_eq!(tokens_saved(23), 4140);
    assert_eq!(tokens_saved(u64::MAX), u64::MAX);
}
