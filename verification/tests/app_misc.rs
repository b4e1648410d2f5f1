use gh_monitor::cli::{editor_choice, env_config, parse_command, Command};
use gh_monitor::config::Config;
use gh_monitor::demo::{DemoState, DEMO_TOTAL_SECS};
use gh_monitor::doctor::{
    check_line, check_pat, config_check, exit_code, format_check_line, orgs_repos_outcome, orgs_repos_probe,
    username_outcome, username_probe, CheckResult, ConfigProbe, Status,
};
use gh_monitor::events::EventKind;
use gh_monitor::link::may_open;
use gh_monitor::notify::{CapturedNotification, Notifier};
use gh_monitor::present::{
    default_items, empty_state_lines, pair_label, status_banner_text, url_for_repo, MenuItem, NodeClass, OverlayState,
    TrayAction,
};
use gh_monitor::snapshot::NodeKind;

#[test]
fn empty_state_lines_setup_when_needs_setup() {
    let lines = empty_state_lines(true, None);
    assert_eq!(
        lines,
        vec![
            "gh-monitor".to_string(),
            String::new(),
            "No personal access token set.".to_string(),
            "Run one of:".to_string(),
            "  gh-monitor config edit".to_string(),
            "  GH_MONITOR_PAT=ghp_... gh-monitor".to_string(),
        ]
    );
}

#[test]
fn empty_state_lines_status_when_status_set() {
    let lines = empty_state_lines(false, Some("auth failed"));
    assert_eq!(lines, vec!["auth failed".to_string()]);
}

#[test]
fn empty_state_lines_default_when_no_status_no_setup() {
    let lines = empty_state_lines(false, None);
    assert_eq!(lines, vec!["No recent activity".to_string()]);
    assert_eq!(status_banner_text("x"), "x");
}

#[test]
fn labels_match_documented_strings() {
    assert_eq!(MenuItem::Settings.label(), "Settings…");
    assert_eq!(MenuItem::ShowHide.label(), "Show / Hide");
    assert_eq!(MenuItem::RefreshNow.label(), "Refresh now");
    assert_eq!(MenuItem::Doctor.label(), "Doctor…");
    assert_eq!(MenuItem::About.label(), "About");
    assert_eq!(MenuItem::Quit.label(), "Quit");
    assert_eq!(MenuItem::Separator.label(), "");
}

#[test]
fn default_menu_has_separators_and_eight_rows() {
    let items = default_items();
    assert_eq!(items.len(), 8);
    assert_eq!(items[0], MenuItem::Settings);
    assert_eq!(items[1], MenuItem::ShowHide);
    assert_eq!(items[2], MenuItem::RefreshNow);
    assert!(items[3].is_separator());
    assert_eq!(items[4], MenuItem::Doctor);
    assert_eq!(items[5], MenuItem::About);
    assert!(items[6].is_separator());
    assert_eq!(items[7], MenuItem::Quit);
}

#[test]
fn status_label_is_stable() {
    assert_eq!(Status::Pass.label(), "OK");
    assert_eq!(Status::Warn.label(), "WARN");
    assert_eq!(Status::Fail.label(), "FAIL");
}

#[test]
fn status_predicates() {
    assert!(!Status::Pass.is_fail());
    assert!(!Status::Pass.is_warn());
    assert!(Status::Warn.is_warn());
    assert!(!Status::Warn.is_fail());
    assert!(Status::Fail.is_fail());
    assert!(!Status::Fail.is_warn());
}

#[test]
fn status_sgr_codes_match_ansi() {
    assert_eq!(Status::Pass.sgr(), "32");
    assert_eq!(Status::Warn.sgr(), "33");
    assert_eq!(Status::Fail.sgr(), "31");
}

#[test]
fn check_result_constructors() {
    let r = CheckResult::ok("config", "valid");
    assert_eq!(r.status, Status::Pass);
    assert_eq!(r.label, "config");
    assert_eq!(r.detail, "valid");

    let r = CheckResult::warn("pat", "no PAT set");
    assert_eq!(r.status, Status::Warn);
    assert_eq!(r.label, "pat");

    let r = CheckResult::fail("orgs/rust-lang", "401 Unauthorized");
    assert_eq!(r.status, Status::Fail);
    assert_eq!(r.label, "orgs/rust-lang");
    assert_eq!(r.detail, "401 Unauthorized");
}

#[test]
fn check_result_accepts_dynamic_label() {
    let label: String = format!("repos/{}/{}", "o", "n");
    let r = CheckResult::ok(&label, "200 OK");
    assert_eq!(r.label, "repos/o/n");
}

#[test]
fn format_check_line_pads_status_to_four_columns() {
    let r = CheckResult::ok("config", "valid, 87 bytes");
    let line = format_check_line(&r);
    assert!(line.starts_with("[ OK   ]"), "got {line:?} (expected leading `[ OK   ]`)");
    assert!(line.ends_with("config: valid, 87 bytes"));
}

#[test]
fn format_check_line_warn_and_fail() {
    let r = CheckResult::warn("pat", "no PAT set");
    let line = format_check_line(&r);
    assert!(line.starts_with("[ WARN ]"), "got {line:?}");
    assert!(line.ends_with("pat: no PAT set"));

    let r = CheckResult::fail("orgs/rust-lang", "401 Unauthorized");
    let line = format_check_line(&r);
    assert!(line.starts_with("[ FAIL ]"), "got {line:?}");
    assert!(line.ends_with("orgs/rust-lang: 401 Unauthorized"));
}

#[test]
fn format_check_line_is_eight_chars_to_bracket_close() {
    for r in [CheckResult::ok("a", "b"), CheckResult::warn("a", "b"), CheckResult::fail("a", "b")] {
        let line = format_check_line(&r);
        let prefix = line.split(']').next().expect("line contains `]`").to_string() + "]";
        assert_eq!(prefix.len(), 8, "prefix {prefix:?} not 8 chars for {line:?}");
    }
}

#[test]
fn exit_code_no_results_is_zero() {
    assert_eq!(exit_code(&[]), 0);
}

#[test]
fn exit_code_all_ok_is_zero() {
    let results = vec![CheckResult::ok("a", "x"), CheckResult::ok("b", "y")];
    assert_eq!(exit_code(&results), 0);
}

#[test]
fn exit_code_warn_is_two() {
    let results = vec![CheckResult::ok("a", "x"), CheckResult::warn("b", "y")];
    assert_eq!(exit_code(&results), 2);
}

#[test]
fn exit_code_fail_beats_warn() {
    let results = vec![CheckResult::ok("a", "x"), CheckResult::warn("b", "y"), CheckResult::fail("c", "z")];
    assert_eq!(exit_code(&results), 1);
}

#[test]
fn exit_code_fail_only_is_one() {
    let results = vec![CheckResult::fail("a", "x")];
    assert_eq!(exit_code(&results), 1);
}

fn strip_ansi(s: &str) -> String {
    let mut out = String::with_capacity(s.len());
    let mut chars = s.chars().peekable();
    while let Some(c) = chars.next() {
        if c == '\x1b' && chars.peek() == Some(&'[') {
            chars.next();
            while let Some(&c) = chars.peek() {
                chars.next();
                if c.is_ascii_alphabetic() {
                    break;
                }
            }
        } else {
            out.push(c);
        }
    }
    out
}

#[test]
fn check_line_no_color_uses_plain_format_with_newline() {
    let r = CheckResult::ok("config", "valid");
    assert_eq!(check_line(&r, false), "[ OK   ] config: valid\n");
}

#[test]
fn check_line_with_color_wraps_status_in_ansi() {
    let r = CheckResult::fail("config", "bad");
    let s = check_line(&r, true);
    assert!(s.contains("\x1b[31m"), "missing red SGR: {s:?}");
    assert!(s.contains("\x1b[0m"), "missing reset: {s:?}");
    assert!(s.contains("config: bad"));
    assert!(s.ends_with('\n'));
    assert_eq!(strip_ansi(&s), "[ FAIL ] config: bad\n");
    assert!(check_line(&CheckResult::ok("pat", "set"), true).contains("\x1b[32m"));
    assert!(check_line(&CheckResult::warn("pat", "no PAT set"), true).contains("\x1b[33m"));
}

#[test]
fn doctor_checks_conclude_from_observations() {
    let mut cfg = Config::default();
    assert_eq!(check_pat(&cfg).status, Status::Warn);
    cfg.pat = "ghp".to_string();
    assert_eq!(check_pat(&cfg).detail, "set");
    let missing = config_check(&ConfigProbe::Missing("/tmp/c.toml".to_string()));
    assert_eq!(missing.status, Status::Warn);
    assert_eq!(missing.detail, "file missing at /tmp/c.toml; run `gh-monitor init` or set GH_MONITOR_* env vars");
    let invalid = config_check(&ConfigProbe::Parsed(Config::default(), 10));
    assert_eq!(invalid.detail, "validation failed: pat is empty");
    let ok_cfg = Config { pat: "p".to_string(), orgs: vec!["o".to_string()], ..Config::default() };
    let ok = config_check(&ConfigProbe::Parsed(ok_cfg, 87));
    assert_eq!(format_check_line(&ok), "[ OK   ] config: valid, 87 bytes");
    assert!(username_probe(&Config::default()).is_err());
    let with_user = Config { username: Some("octocat".to_string()), ..Config::default() };
    let (user, url) = username_probe(&with_user).unwrap();
    assert_eq!(user, "octocat");
    assert_eq!(url, "https://api.github.com/users/octocat");
    assert_eq!(username_outcome("octocat", Ok((true, "200 OK"))).detail, "@octocat: 200 OK");
    assert_eq!(username_outcome("octocat", Err("timeout")).status, Status::Fail);
    let with_repo = Config { repos: vec!["o/n".to_string()], ..Config::default() };
    let (label, url) = orgs_repos_probe(&with_repo).unwrap();
    assert_eq!(label, "repos/o/n");
    assert_eq!(url, "https://api.github.com/repos/o/n/events");
    let malformed = Config { repos: vec!["nope".to_string()], ..Config::default() };
    assert_eq!(orgs_repos_probe(&malformed).unwrap_err().detail, "malformed repo: nope");
    assert_eq!(orgs_repos_probe(&Config::default()).unwrap_err().label, "orgs/repos");
    assert_eq!(orgs_repos_outcome("orgs/x", Err("boom")).detail, "network error: boom");
}

#[test]
fn capture_mode_records_calls() {
    let mut n = Notifier::new();
    n.set_capture_mode(true);
    let _ = n.take_captured();
    n.fire("title-a", "body-a");
    n.fire("title-b", "body-b");
    let captured = n.take_captured();
    n.set_capture_mode(false);
    assert_eq!(
        captured,
        vec![
            CapturedNotification { title: "title-a".to_string(), body: "body-a".to_string() },
            CapturedNotification { title: "title-b".to_string(), body: "body-b".to_string() },
        ]
    );
}

#[test]
fn take_captured_drains_buffer() {
    let mut n = Notifier::new();
    n.set_capture_mode(true);
    let _ = n.take_captured();
    n.fire("a", "b");
    let once = n.take_captured();
    let twice = n.take_captured();
    n.set_capture_mode(false);
    assert_eq!(once.len(), 1);
    assert!(twice.is_empty());
    assert!(n.fire("c", "d"), "production mode hands the notification to the platform");
    assert!(n.take_captured().is_empty());
}

#[test]
fn idle_is_passthrough() {
    assert!(OverlayState::Idle.is_passthrough());
    assert!(!OverlayState::Active.is_passthrough());
}

#[test]
fn default_is_idle() {
    assert_eq!(OverlayState::default(), OverlayState::Idle);
}

#[test]
fn url_for_repo_uses_repo_name() {
    assert_eq!(url_for_repo("octocat/Hello-World"), "https://github.com/octocat/Hello-World");
}

#[test]
fn pair_label_singular_and_plural() {
    assert_eq!(pair_label(EventKind::PrOpened, 1), "1 PR opened");
    assert_eq!(pair_label(EventKind::PrOpened, 3), "3 PRs opened");
    assert_eq!(pair_label(EventKind::IssueOpened, 2), "2 issues opened");
    assert_eq!(pair_label(EventKind::ReleasePublished, 1), "1 release");
    assert_eq!(pair_label(EventKind::ReleasePublished, 2), "2 releases");
    assert_eq!(pair_label(EventKind::RepoCreated, 0), "0 new repos");
}

#[test]
fn node_class_follows_kind() {
    assert_eq!(NodeClass::from_node_kind(NodeKind::Group), NodeClass::Group);
    assert_eq!(NodeClass::from_node_kind(NodeKind::Standalone), NodeClass::Standalone);
}

#[test]
fn tray_actions_distinct() {
    assert_ne!(TrayAction::ToggleVisible, TrayAction::Quit);
}

#[test]
fn javascript_scheme_is_rejected() {
    assert!(!may_open("javascript:alert(1)"));
}

#[test]
fn file_scheme_is_rejected() {
    assert!(!may_open("file:///etc/passwd"));
}

#[test]
fn malformed_url_is_rejected() {
    assert!(!may_open("not a url"));
}

#[test]
fn https_url_is_opened() {
    assert!(may_open("https://github.com/foo/bar"));
}

#[test]
fn http_url_is_opened() {
    assert!(may_open("http://example.com/"));
}

#[test]
fn data_scheme_is_rejected() {
    assert!(!may_open("data:text/html,<script>alert(1)</script>"));
}

const START: u64 = 5_000_000;
/// 2026-06-13T12:00:00Z, as an instant.
const NOW: i128 = 1_781_352_000 * gh_monitor::time::SECOND;

#[test]
fn script_has_ten_events_across_four_repos() {
    let mut demo = DemoState::new_at(START, NOW);
    assert_eq!(demo.len(), 10, "script should have 10 events");
    let all = demo.drain_due(START + 11_000);
    assert_eq!(all.len(), 10);
    let mut repos: Vec<&str> = all.iter().map(|e| e.repo_full_name.as_str()).collect();
    repos.sort();
    repos.dedup();
    assert_eq!(repos.len(), 4, "expected 4 distinct repos, got {repos:?}");
    let mut kinds: Vec<EventKind> = all.iter().map(|e| e.kind).collect();
    kinds.sort();
    kinds.dedup();
    assert_eq!(kinds.len(), 5, "expected all 5 event kinds to appear, got {kinds:?}");
    assert!(kinds.contains(&EventKind::RepoCreated));
    assert_eq!(all[0].id, "demo-1");
    assert_eq!(all[9].id, "demo-10");
    assert_eq!(all[0].url.as_deref(), Some("https://github.com/rust-lang/rust/pull/1"));
    assert_eq!(all[0].created_at, NOW - 60 * gh_monitor::time::SECOND);
}

#[test]
fn events_fire_at_one_second_intervals() {
    let mut demo = DemoState::new_at(START, NOW);
    for i in 1..=10u64 {
        assert!(demo.drain_due(START + i * 1000 - 1).is_empty(), "entry {i} too early");
        assert_eq!(demo.drain_due(START + i * 1000).len(), 1, "entry {i} on time");
    }
}

#[test]
fn drain_due_returns_nothing_before_first_event() {
    let mut demo = DemoState::new_at(START, NOW);
    assert!(demo.drain_due(START + 500).is_empty());
}

#[test]
fn drain_due_returns_first_event_at_one_second() {
    let mut demo = DemoState::new_at(START, NOW);
    let out = demo.drain_due(START + 1_000);
    assert_eq!(out.len(), 1);
    assert_eq!(out[0].repo_full_name, "rust-lang/rust");
}

#[test]
fn drain_due_does_not_re_emit_events() {
    let mut demo = DemoState::new_at(START, NOW);
    assert_eq!(demo.drain_due(START + 3_000).len(), 3);
    assert!(demo.drain_due(START + 3_000).is_empty());
    assert_eq!(demo.drain_due(START + 4_000).len(), 1);
}

#[test]
fn remaining_secs_counts_down_to_zero() {
    let demo = DemoState::new_at(START, NOW);
    assert_eq!(demo.remaining_secs(START), DEMO_TOTAL_SECS);
    assert_eq!(demo.remaining_secs(START + 10_000), DEMO_TOTAL_SECS - 10);
    assert_eq!(demo.remaining_secs(START + 200_000), 0);
    assert_eq!(demo.remaining_secs(START - 1), DEMO_TOTAL_SECS);
}

#[test]
fn is_complete_flips_at_total_secs() {
    let demo = DemoState::new_at(START, NOW);
    assert!(!demo.is_complete(START + (DEMO_TOTAL_SECS - 1) * 1000));
    assert!(demo.is_complete(START + DEMO_TOTAL_SECS * 1000));
}

#[test]
fn command_line_parsing() {
    let args = |v: &[&str]| v.iter().map(|s| s.to_string()).collect::<Vec<String>>();
    assert_eq!(parse_command(&args(&[])), Command::Run);
    assert_eq!(parse_command(&args(&["config", "path"])), Command::ConfigPath);
    assert_eq!(parse_command(&args(&["config"])), Command::ConfigMissing);
    assert_eq!(parse_command(&args(&["config", "zap"])), Command::ConfigUnknown("zap".to_string()));
    assert_eq!(parse_command(&args(&["-V"])), Command::Version);
    assert_eq!(parse_command(&args(&["help"])), Command::Help);
    assert_eq!(parse_command(&args(&["frob"])), Command::Unknown("frob".to_string()));
    let c = env_config(Some("ghp".to_string()), None, Some(" a, ,b ".to_string()), None);
    assert_eq!(c.pat, "ghp");
    assert_eq!(c.orgs, vec!["a".to_string(), "b".to_string()]);
    assert_eq!(c.poll_interval_secs, 30);
    assert_eq!(editor_choice(None, Some("nano".to_string()), false), "nano");
    assert_eq!(editor_choice(None, None, true), "notepad");
}
