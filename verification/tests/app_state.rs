use gh_monitor::client::ClientError;
use gh_monitor::config::{Config, WindowPosition};
use gh_monitor::events::{EventKind, RawEvent};
use gh_monitor::overlay::{dedupe_events, should_save_position, OverlayAction, OverlayCore, OverlayEvent, POSITION_SAVE_DEBOUNCE_MS};
use gh_monitor::present::{OverlayState, TrayAction};
use gh_monitor::snapshot::NodeId;
use gh_monitor::time::SECOND;
use gh_monitor::status::{format_poll_status, PollStatus, SourceStatusKind};

/// 2026-06-13T12:00:00Z, as an instant.
const NOW: i128 = 1_781_352_000 * SECOND;

fn ev(id: &str, repo: &str, kind: EventKind, secs_ago: i64) -> RawEvent {
    RawEvent {
        id: id.to_string(),
        kind,
        repo_full_name: repo.to_string(),
        created_at: NOW - secs_ago as i128 * SECOND,
        title: None,
        url: None,
    }
}

#[test]
fn dedupe_drops_duplicate_ids() {
    let e1 = ev("dup-1", "x/y", EventKind::PrOpened, 100);
    let e2 = ev("dup-1", "x/y", EventKind::PrOpened, 100);
    let e3 = ev("other-1", "x/y", EventKind::PrOpened, 50);
    let out = dedupe_events(vec![e1, e2, e3]);
    assert_eq!(out.len(), 2);
    let ids: Vec<&str> = out.iter().map(|e| e.id.as_str()).collect();
    assert!(ids.contains(&"dup-1"));
    assert!(ids.contains(&"other-1"));
}

#[test]
fn dedupe_preserves_first_occurrence() {
    let e1 = ev("dup-1", "x/y", EventKind::PrOpened, 100);
    let e2 = ev("dup-1", "x/y", EventKind::PrOpened, 200);
    let out = dedupe_events(vec![e1, e2]);
    assert_eq!(out.len(), 1);
    let before = NOW - 150 * SECOND;
    assert!(
        out[0].created_at > before,
        "first occurrence (100s ago) should be kept, not the 200s-ago one"
    );
}

#[test]
fn dedupe_handles_empty() {
    let out = dedupe_events(vec![]);
    assert!(out.is_empty());
}

#[test]
fn poll_status_no_polls_yet_is_empty() {
    let s = PollStatus::default();
    assert!(s.is_empty());
    assert_eq!(format_poll_status(&s), None);
}

#[test]
fn poll_status_all_ok_is_no_banner() {
    let mut s = PollStatus::default();
    s.record_ok("received");
    s.record_ok("org/rust-lang");
    assert_eq!(format_poll_status(&s), None);
}

#[test]
fn poll_status_single_error_shows_source() {
    let mut s = PollStatus::default();
    s.record_ok("received");
    s.record_error("org/rust-lang", "401 Unauthorized".to_string());
    assert_eq!(format_poll_status(&s), Some("rust-lang: 401 Unauthorized".to_string()));
}

#[test]
fn poll_status_single_auth_error_shows_source() {
    let mut s = PollStatus::default();
    s.record_auth_error("repo/octocat/Hello-World", "401".to_string());
    assert_eq!(format_poll_status(&s), Some("octocat/Hello-World: 401".to_string()));
}

#[test]
fn poll_status_multiple_errors_show_counts() {
    let mut s = PollStatus::default();
    s.record_ok("received");
    s.record_error("org/rust-lang", "500".to_string());
    s.record_error("repo/octocat/Hello-World", "503".to_string());
    assert_eq!(format_poll_status(&s), Some("polling (1/3 ok)".to_string()));
}

#[test]
fn poll_status_per_source_distinguished() {
    let mut s = PollStatus::default();
    s.record_ok("received");
    s.record_error("org/rust-lang", "401 Unauthorized".to_string());
    s.record_error("org/mozilla", "500 Server Error".to_string());
    let formatted = format_poll_status(&s);
    assert_eq!(formatted, Some("polling (1/3 ok)".to_string()));
    let mut only_rust_lang = PollStatus::default();
    only_rust_lang.record_error("org/rust-lang", "401 Unauthorized".to_string());
    assert_eq!(
        format_poll_status(&only_rust_lang),
        Some("rust-lang: 401 Unauthorized".to_string())
    );
    let mut only_mozilla = PollStatus::default();
    only_mozilla.record_error("org/mozilla", "500 Server Error".to_string());
    assert_eq!(
        format_poll_status(&only_mozilla),
        Some("mozilla: 500 Server Error".to_string())
    );
}

#[test]
fn poll_status_update_moves_to_most_recent() {
    let mut s = PollStatus::default();
    s.record_ok("received");
    s.record_ok("org/rust-lang");
    s.record_ok("received");
    let order: Vec<&str> = s.iter().map(|e| e.source.as_str()).collect();
    assert_eq!(order, vec!["org/rust-lang", "received"]);
}

#[test]
fn poll_status_source_re_recording_replaces_entry() {
    let mut s = PollStatus::default();
    s.record_ok("received");
    s.record_error("org/rust-lang", "first".to_string());
    s.record_error("org/rust-lang", "second".to_string());
    assert_eq!(s.len(), 2, "received + rust-lang, not 3");
    assert_eq!(format_poll_status(&s), Some("rust-lang: second".to_string()));
}

#[test]
fn poll_status_records_kinds() {
    let mut s = PollStatus::default();
    s.record_auth_error("received", "401".to_string());
    s.record_error("org/a", "500".to_string());
    s.record_ok("received");
    let kinds: Vec<SourceStatusKind> = s.iter().map(|e| e.kind.clone()).collect();
    assert_eq!(kinds, vec![SourceStatusKind::Error("500".to_string()), SourceStatusKind::Healthy]);
}

#[test]
fn should_save_position_is_true_when_never_saved() {
    let now: u64 = 1_000_000;
    assert!(should_save_position(now, None));
}

#[test]
fn should_save_position_is_true_after_debounce_window() {
    let now: u64 = 1_000_000;
    let last = now.checked_sub(POSITION_SAVE_DEBOUNCE_MS + 1);
    assert!(should_save_position(now, last));
}

#[test]
fn should_save_position_is_false_within_debounce_window() {
    let now: u64 = 1_000_000;
    let last = now.checked_sub(100);
    assert!(!should_save_position(now, last));
}

#[test]
fn should_save_position_at_exact_debounce_is_true() {
    assert!(should_save_position(1_500, Some(1_000)));
    assert!(!should_save_position(1_499, Some(1_000)));
    assert!(!should_save_position(900, Some(1_000)));
}

fn test_config() -> Config {
    Config {
        pat: "ghp_test".to_string(),
        username: Some("octocat".to_string()),
        orgs: vec!["rust-lang".to_string()],
        repos: vec![],
        poll_interval_secs: 30,
        window_position: None,
        ..Config::default()
    }
}

#[test]
fn polled_cycle_applies_all_sources_in_one_shot() {
    let mut s = OverlayCore::new(test_config());
    let events = vec![
        ("received".to_string(), vec![ev("1", "x/y", EventKind::PrOpened, 100)]),
        ("org/rust-lang".to_string(), vec![ev("2", "rust-lang/rust", EventKind::IssueOpened, 50)]),
    ];
    let a = s.update(OverlayEvent::PolledCycle { events, errors: vec![] }, 10, NOW, &vec![]);
    let repos: Vec<&str> = s.snapshot.nodes.iter().map(|n| n.repo.as_str()).collect();
    assert!(repos.contains(&"x/y"), "received event missing: {repos:?}");
    assert!(repos.contains(&"rust-lang/rust"), "org event missing: {repos:?}");
    let sources: Vec<&str> = s.poll_status.iter().map(|e| e.source.as_str()).collect();
    assert!(sources.contains(&"received"));
    assert!(sources.contains(&"org/rust-lang"));
    match a {
        OverlayAction::Rebuilt(plan) => {
            assert_eq!(plan.insert.len(), 2);
            assert!(plan.pulse.is_empty());
            assert!(plan.remove.is_empty());
        }
        other => panic!("expected a rebuild, got {other:?}"),
    }
    assert_eq!(s.last_poll_at, Some(10));
}

#[test]
fn polled_cycle_records_per_source_errors() {
    let mut s = OverlayCore::new(test_config());
    let events = vec![("received".to_string(), vec![])];
    let errors = vec![("org/rust-lang".to_string(), ClientError::Server("500 Internal Server Error".to_string()))];
    s.update(OverlayEvent::PolledCycle { events, errors }, 10, NOW, &vec![]);
    assert_eq!(
        format_poll_status(&s.poll_status),
        Some("rust-lang: server error: 500 Internal Server Error".to_string())
    );
}

#[test]
fn polled_cycle_distinguishes_auth_from_transient_via_typed_errors() {
    let mut s = OverlayCore::new(test_config());
    let errors = vec![
        ("received".to_string(), ClientError::Unauthorized("401 Unauthorized".to_string())),
        ("org/rust-lang".to_string(), ClientError::Events("404 Not Found".to_string())),
        ("repo/a/b".to_string(), ClientError::RateLimited { reset_at: None }),
    ];
    s.update(OverlayEvent::PolledCycle { events: vec![], errors }, 10, NOW, &vec![]);
    let kinds: Vec<SourceStatusKind> = s.poll_status.iter().map(|e| e.kind.clone()).collect();
    assert_eq!(
        kinds,
        vec![
            SourceStatusKind::AuthError("auth error: 401 Unauthorized".to_string()),
            SourceStatusKind::Error("events API: 404 Not Found".to_string()),
            SourceStatusKind::AuthError("rate-limited by GitHub".to_string()),
        ]
    );
}

#[test]
fn second_cycle_pulses_updated_nodes_and_drops_gone_ones() {
    let mut s = OverlayCore::new(test_config());
    let first = vec![("received".to_string(), vec![
        ev("1", "a/b", EventKind::PrOpened, 100),
        ev("2", "c/d", EventKind::PrOpened, 100),
    ])];
    s.update(OverlayEvent::PolledCycle { events: first, errors: vec![] }, 10, NOW, &vec![]);
    let ids: Vec<NodeId> = s.snapshot.nodes.iter().map(|n| n.id.clone()).collect();
    let c_d = s.snapshot.nodes.iter().find(|n| n.repo == "c/d").unwrap().id.clone();
    let second = vec![("received".to_string(), vec![
        ev("1", "a/b", EventKind::PrOpened, 100),
        ev("3", "a/b", EventKind::PrOpened, 60),
    ])];
    let a = s.update(OverlayEvent::PolledCycle { events: second, errors: vec![] }, 20, NOW, &ids);
    match a {
        OverlayAction::Rebuilt(plan) => {
            assert!(plan.insert.is_empty());
            assert_eq!(plan.pulse.len(), 1);
            assert_eq!(plan.remove, vec![c_d]);
        }
        other => panic!("expected a rebuild, got {other:?}"),
    }
}

#[test]
fn window_moved_first_event_records_pending_false() {
    let mut s = OverlayCore::new(test_config());
    let a = s.update(OverlayEvent::WindowMoved { x: 10, y: 20 }, 1_000, NOW, &vec![]);
    assert_eq!(s.last_position_save_at, Some(1_000));
    assert!(!s.config_save_pending);
    assert_eq!(s.config.window_position, Some(WindowPosition { x: 10, y: 20 }));
    match a {
        OverlayAction::SaveConfig(c) => assert_eq!(c.window_position, Some(WindowPosition { x: 10, y: 20 })),
        other => panic!("expected a save, got {other:?}"),
    }
}

#[test]
fn window_moved_within_debounce_window_marks_pending() {
    let mut s = OverlayCore::new(test_config());
    s.update(OverlayEvent::WindowMoved { x: 10, y: 20 }, 1_000, NOW, &vec![]);
    let a = s.update(OverlayEvent::WindowMoved { x: 30, y: 40 }, 1_100, NOW, &vec![]);
    assert!(matches!(a, OverlayAction::Nothing));
    assert!(s.config_save_pending);
    assert_eq!(s.config.window_position, Some(WindowPosition { x: 30, y: 40 }));
    match s.update(OverlayEvent::Escape, 1_200, NOW, &vec![]) {
        OverlayAction::Exit(Some(c)) => assert_eq!(c.window_position, Some(WindowPosition { x: 30, y: 40 })),
        other => panic!("expected a flushing exit, got {other:?}"),
    }
    assert!(!s.config_save_pending);
}

#[test]
fn hover_state_machine_stays_active_until_first_hover() {
    let mut s = OverlayCore::new(test_config());
    assert!(matches!(s.update(OverlayEvent::WindowResolved, 0, NOW, &vec![]), OverlayAction::DisablePassthrough));
    assert!(matches!(s.update(OverlayEvent::HoverLeft, 0, NOW, &vec![]), OverlayAction::Nothing));
    assert_eq!(s.overlay, OverlayState::Active);
    assert!(matches!(s.update(OverlayEvent::HoverEntered, 0, NOW, &vec![]), OverlayAction::DisablePassthrough));
    assert!(matches!(s.update(OverlayEvent::HoverLeft, 0, NOW, &vec![]), OverlayAction::EnablePassthrough));
    assert_eq!(s.overlay, OverlayState::Idle);
    assert!(s.overlay.is_passthrough());
}

#[test]
fn tray_toggle_and_quit() {
    let mut s = OverlayCore::new(test_config());
    assert!(matches!(s.update(OverlayEvent::Tray(TrayAction::ToggleVisible), 0, NOW, &vec![]), OverlayAction::Nothing));
    s.update(OverlayEvent::WindowResolved, 0, NOW, &vec![]);
    assert!(matches!(s.update(OverlayEvent::Tray(TrayAction::ToggleVisible), 0, NOW, &vec![]), OverlayAction::SetHidden(true)));
    assert!(matches!(s.update(OverlayEvent::Tray(TrayAction::ToggleVisible), 0, NOW, &vec![]), OverlayAction::SetHidden(false)));
    assert!(matches!(s.update(OverlayEvent::Tray(TrayAction::Quit), 0, NOW, &vec![]), OverlayAction::Exit(None)));
}

#[test]
fn open_url_refuses_unsafe_schemes() {
    let mut s = OverlayCore::new(test_config());
    match s.update(OverlayEvent::OpenUrl("https://github.com/a/b".to_string()), 0, NOW, &vec![]) {
        OverlayAction::OpenUrl(u) => assert_eq!(u, "https://github.com/a/b"),
        other => panic!("expected open, got {other:?}"),
    }
    assert!(matches!(
        s.update(OverlayEvent::OpenUrl("javascript:alert(1)".to_string()), 0, NOW, &vec![]),
        OverlayAction::Nothing
    ));
    assert!(s.needs_setup() == false);
}

#[test]
fn poll_status_keeps_last_call_per_source_in_call_order() {
    let mut s = PollStatus::default();
    s.record_ok("received");
    s.record_error("org/rust-lang", "500".to_string());
    s.record_auth_error("repo/a/b", "401".to_string());
    s.record_ok("org/rust-lang");
    s.record_error("received", "timeout".to_string());
    assert_eq!(s.len(), 3);
    let got: Vec<(String, SourceStatusKind)> = s.iter().map(|e| (e.source.clone(), e.kind.clone())).collect();
    assert_eq!(
        got,
        vec![
            ("repo/a/b".to_string(), SourceStatusKind::AuthError("401".to_string())),
            ("org/rust-lang".to_string(), SourceStatusKind::Healthy),
            ("received".to_string(), SourceStatusKind::Error("timeout".to_string())),
        ]
    );
}
