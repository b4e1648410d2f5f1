use gh_monitor::client::{
    body_events, org_events_url, parse_rate_limit_reset, rate_limit_reset_at, received_events_url, repo_events_url,
    status_error, ClientConfig, ClientError,
};
use gh_monitor::events::{parse_event, parse_events, EventKind, ParseError};
use gh_monitor::json::JsonValue;
use gh_monitor::polling::{
    check_sources, cycle_item, intern_sources, poll_targets, rate_limit_banner, target_url, PollConfig, PollError,
    PollItem, PollOutcome, PollSourceOutcome, PollTarget,
};

fn to_json(v: serde_json::Value) -> JsonValue {
    match v {
        serde_json::Value::Null => JsonValue::Null,
        serde_json::Value::Bool(b) => JsonValue::Bool(b),
        serde_json::Value::Number(n) => JsonValue::Number(n.to_string()),
        serde_json::Value::String(s) => JsonValue::Str(s),
        serde_json::Value::Array(a) => JsonValue::Array(a.into_iter().map(to_json).collect()),
        serde_json::Value::Object(m) => JsonValue::Object(m.into_iter().map(|(k, x)| (k, to_json(x))).collect()),
    }
}

fn parse_one(json: &str) -> Result<gh_monitor::events::RawEvent, ParseError> {
    parse_event(to_json(serde_json::from_str(json).unwrap()))
}

#[test]
fn parses_pr_opened() {
    let json = r#"{
        "id": "1",
        "type": "PullRequestEvent",
        "created_at": "2026-06-13T10:00:00Z",
        "repo": {"name": "octocat/Hello-World"},
        "payload": {
            "action": "opened",
            "pull_request": {
                "title": "Fix typo",
                "merged": false,
                "html_url": "https://github.com/octocat/Hello-World/pull/42"
            }
        }
    }"#;
    let ev = parse_one(json).unwrap();
    assert_eq!(ev.kind, EventKind::PrOpened);
    assert_eq!(ev.repo_full_name, "octocat/Hello-World");
    assert_eq!(ev.title.as_deref(), Some("Fix typo"));
    assert_eq!(ev.url, Some("https://github.com/octocat/Hello-World/pull/42".to_string()));
    assert_eq!(ev.created_at, gh_monitor::time::instant_of(1_781_344_800, 0));
}

#[test]
fn parses_pr_merged() {
    let json = r#"{
        "id": "2",
        "type": "PullRequestEvent",
        "created_at": "2026-06-13T10:00:00Z",
        "repo": {"name": "x/y"},
        "payload": {
            "action": "closed",
            "pull_request": {"title": "X", "merged": true}
        }
    }"#;
    let ev = parse_one(json).unwrap();
    assert_eq!(ev.kind, EventKind::PrMerged);
}

#[test]
fn parses_pr_closed_unmerged_is_error() {
    let json = r#"{
        "id": "3",
        "type": "PullRequestEvent",
        "created_at": "2026-06-13T10:00:00Z",
        "repo": {"name": "x/y"},
        "payload": {
            "action": "closed",
            "pull_request": {"title": "X", "merged": false}
        }
    }"#;
    assert!(parse_one(json).is_err());
    match parse_one(json) {
        Err(ParseError::UnsupportedAction(a)) => assert_eq!(a, "PullRequestEvent:closed"),
        other => panic!("unexpected {other:?}"),
    }
}

#[test]
fn parses_issue_opened() {
    let json = r#"{
        "id": "4",
        "type": "IssuesEvent",
        "created_at": "2026-06-13T10:00:00Z",
        "repo": {"name": "x/y"},
        "payload": {
            "action": "opened",
            "issue": {
                "title": "Bug",
                "html_url": "https://github.com/x/y/issues/7"
            }
        }
    }"#;
    let ev = parse_one(json).unwrap();
    assert_eq!(ev.kind, EventKind::IssueOpened);
    assert_eq!(ev.url, Some("https://github.com/x/y/issues/7".to_string()));
}

#[test]
fn parses_release_published() {
    let json = r#"{
        "id": "5",
        "type": "ReleaseEvent",
        "created_at": "2026-06-13T10:00:00Z",
        "repo": {"name": "x/y"},
        "payload": {
            "action": "published",
            "release": {
                "name": "v1.0",
                "tag_name": "v1.0",
                "html_url": "https://github.com/x/y/releases/tag/v1.0"
            }
        }
    }"#;
    let ev = parse_one(json).unwrap();
    assert_eq!(ev.kind, EventKind::ReleasePublished);
    assert_eq!(ev.url, Some("https://github.com/x/y/releases/tag/v1.0".to_string()));
}

#[test]
fn parses_repo_created() {
    let json = r#"{
        "id": "6",
        "type": "CreateEvent",
        "created_at": "2026-06-13T10:00:00Z",
        "repo": {"name": "x/y"},
        "payload": {"ref_type": "repository"}
    }"#;
    let ev = parse_one(json).unwrap();
    assert_eq!(ev.kind, EventKind::RepoCreated);
    assert!(ev.kind.is_standalone());
}

#[test]
fn unsupported_event_is_error_not_panic() {
    let json = r#"{
        "id": "7",
        "type": "PushEvent",
        "created_at": "2026-06-13T10:00:00Z",
        "repo": {"name": "x/y"},
        "payload": {}
    }"#;
    assert!(matches!(parse_one(json), Err(ParseError::UnsupportedEvent(_))));
}

#[test]
fn parse_list_filters_unsupported() {
    let body = r#"[
        {
            "id": "1",
            "type": "PushEvent",
            "created_at": "2026-06-13T10:00:00Z",
            "repo": {"name": "x/y"},
            "payload": {}
        },
        {
            "id": "2",
            "type": "IssuesEvent",
            "created_at": "2026-06-13T10:00:00Z",
            "repo": {"name": "x/y"},
            "payload": {"action": "opened", "issue": {"title": "Bug"}}
        },
        {
            "id": "3",
            "type": "PullRequestEvent",
            "created_at": "2026-06-13T10:00:00Z",
            "repo": {"name": "x/y"},
            "payload": {"action": "closed", "pull_request": {"title": "X", "merged": false}}
        }
    ]"#;
    let res = parse_events(body).unwrap();
    assert_eq!(res.len(), 1, "PushEvent + unmerged PR closed are filtered");
    assert_eq!(res[0].id, "2");
    assert_eq!(res[0].kind, EventKind::IssueOpened);
}

#[test]
fn parse_errors_name_the_missing_field() {
    let no_id = r#"{"type": "IssuesEvent", "created_at": "2026-06-13T10:00:00Z", "repo": {"name": "x/y"}}"#;
    match parse_one(no_id) {
        Err(ParseError::MissingField(f)) => assert_eq!(f, "id"),
        other => panic!("unexpected {other:?}"),
    }
    let bad_time = r#"{"id": 9, "type": "IssuesEvent", "created_at": "yesterday", "repo": {"name": "x/y"}}"#;
    match parse_one(bad_time) {
        Err(e) => assert_eq!(e.message(), "missing required field: created_at"),
        other => panic!("unexpected {other:?}"),
    }
    let no_repo = r#"{"id": 9, "type": "IssuesEvent", "created_at": "2026-06-13T10:00:00Z", "repo": {}}"#;
    match parse_one(no_repo) {
        Err(ParseError::MissingField(f)) => assert_eq!(f, "repo.name"),
        other => panic!("unexpected {other:?}"),
    }
    let numeric_id = r#"{"id": 42, "type": "CreateEvent", "created_at": "2026-06-13T10:00:00Z", "repo": {"name": "x/y"}, "payload": {"ref_type": "repository"}}"#;
    assert_eq!(parse_one(numeric_id).unwrap().id, "42");
    let release_tag = r#"{"id": "5", "type": "ReleaseEvent", "created_at": "2026-06-13T10:00:00Z", "repo": {"name": "x/y"}, "payload": {"action": "published", "release": {"tag_name": "v2"}}}"#;
    assert_eq!(parse_one(release_tag).unwrap().title.as_deref(), Some("v2"));
}

#[test]
fn structural_error_stops_the_list() {
    let body = r#"[{"id": "1", "type": "PushEvent", "created_at": "2026-06-13T10:00:00Z", "repo": {"name": "x/y"}}, {"type": "IssuesEvent"}]"#;
    assert!(matches!(parse_events(body), Err(ParseError::MissingField(_))));
    let not_json = parse_events("{not json");
    match not_json {
        Err(e @ ParseError::Json(_)) => assert!(e.message().starts_with("JSON error: ")),
        other => panic!("unexpected {other:?}"),
    }
}

#[test]
fn parse_rate_limit_reset_prefers_x_header() {
    assert_eq!(parse_rate_limit_reset(Some("1700000000"), Some("30")), Some(1700000000));
}

#[test]
fn parse_rate_limit_reset_handles_garbage() {
    assert_eq!(parse_rate_limit_reset(Some("not a number"), None), None);
}

#[test]
fn rate_limit_reset_falls_back_to_retry_after() {
    assert_eq!(rate_limit_reset_at(None, Some(" 60 "), 1000), Some(1060));
    assert_eq!(rate_limit_reset_at(Some("x"), Some("60"), u64::MAX - 1), Some(u64::MAX));
    assert_eq!(rate_limit_reset_at(None, None, 1000), None);
    let now = std::time::SystemTime::now().duration_since(std::time::UNIX_EPOCH).unwrap().as_secs();
    let r = parse_rate_limit_reset(None, Some("60")).unwrap();
    assert!(r >= now + 60 && r <= now + 120);
}

#[test]
fn status_maps_to_errors() {
    assert!(status_error(200, "200 OK", None).is_none());
    assert!(matches!(status_error(429, "429 Too Many Requests", Some(5)), Some(ClientError::RateLimited { reset_at: Some(5) })));
    assert!(matches!(status_error(401, "401 Unauthorized", None), Some(ClientError::Unauthorized(_))));
    assert!(matches!(status_error(403, "403 Forbidden", None), Some(ClientError::Unauthorized(_))));
    assert!(matches!(status_error(503, "503 Service Unavailable", None), Some(ClientError::Server(_))));
    match status_error(404, "404 Not Found", None) {
        Some(e @ ClientError::Events(_)) => assert_eq!(e.message(), "events API: 404 Not Found"),
        other => panic!("unexpected {other:?}"),
    }
    let e = ClientError::RateLimited { reset_at: Some(1234567890) };
    assert!(e.message().contains("rate-limited"));
    assert_eq!(e.message(), "rate-limited by GitHub until Some(1234567890)");
}

#[test]
fn body_events_maps_parse_errors() {
    assert_eq!(body_events("[]").unwrap().len(), 0);
    match body_events("[{\"id\": \"1\"}]") {
        Err(ClientError::Parse(m)) => assert_eq!(m, "missing required field: type"),
        other => panic!("unexpected {other:?}"),
    }
}

#[test]
fn client_urls_and_defaults() {
    assert_eq!(received_events_url("https://api.github.com", "octocat"), "https://api.github.com/users/octocat/received_events");
    assert_eq!(org_events_url("b", "rust-lang"), "b/orgs/rust-lang/events");
    assert_eq!(repo_events_url("b", "o", "n"), "b/repos/o/n/events");
    let c = ClientConfig::default();
    assert_eq!(c.base_url, "https://api.github.com");
    assert!(c.user_agent.starts_with("gh-monitor/"));
    assert_eq!(c.timeout_secs, 30);
}

#[test]
fn intern_sources_skips_malformed_repos() {
    let cfg = PollConfig {
        username: Some("octocat".to_string()),
        orgs: vec!["rust-lang".to_string()],
        repos: vec![
            "nope".to_string(),
            "/leading".to_string(),
            "trailing/".to_string(),
            "a/b/c".to_string(),
            "good/one".to_string(),
        ],
        interval_secs: 30,
    };
    let labels = intern_sources(&cfg);
    assert_eq!(labels, vec!["received", "org/rust-lang", "repo/good/one"], "malformed repos must be dropped");
    let targets = poll_targets(&cfg);
    assert_eq!(targets.len(), labels.len());
    assert_eq!(targets[2], PollTarget::Repo { owner: "good".to_string(), name: "one".to_string() });
    assert_eq!(target_url("B", &targets[0]), "B/users/octocat/received_events");
}

#[test]
fn intern_sources_keeps_all_malformed_when_none_valid() {
    let cfg = PollConfig {
        username: None,
        orgs: vec![],
        repos: vec!["nope".to_string(), "/x".to_string(), "a/b/c".to_string()],
        interval_secs: 30,
    };
    let labels = intern_sources(&cfg);
    assert!(labels.is_empty(), "expected no labels, got {labels:?}");
}

#[test]
fn rate_limit_banner_with_reset_at_is_user_friendly() {
    let err = ClientError::RateLimited { reset_at: Some(1700000000) };
    let msg = rate_limit_banner(&err);
    assert!(msg.starts_with("rate-limited until "), "unexpected banner: {msg}");
    assert!(msg.contains("2023-11-14"), "missing date in {msg}");
    assert!(msg.contains("22:13:20"), "missing HH:MM:SS in {msg}");
    assert!(msg.contains("UTC"), "missing UTC in {msg}");
}

#[test]
fn rate_limit_banner_without_reset_at_is_generic() {
    let err = ClientError::RateLimited { reset_at: None };
    let msg = rate_limit_banner(&err);
    assert_eq!(msg, "rate-limited by GitHub");
}

#[test]
fn rate_limit_banner_for_2009_reset() {
    let msg = rate_limit_banner(&ClientError::RateLimited { reset_at: Some(1234567890) });
    assert_eq!(msg, "rate-limited until 2009-02-13 23:31:30 UTC");
}

#[test]
fn no_sources_is_error() {
    let cfg = PollConfig::default();
    assert!(check_sources(&cfg).is_err());
    match check_sources(&cfg) {
        Err(e) => assert_eq!(e.message(), "auth error: poller has no sources: set username, orgs, or repos"),
        Ok(()) => panic!("expected an error"),
    }
    assert!(check_sources(&PollConfig { username: Some("u".to_string()), ..PollConfig::with_default_interval() }).is_ok());
    assert_eq!(PollConfig::with_default_interval().interval_secs, 30);
}

#[test]
fn cycle_item_reports_every_source_and_each_error() {
    let ev = gh_monitor::events::RawEvent::for_test("x/y".to_string(), EventKind::IssueOpened, 100);
    let outcome = PollOutcome {
        sources: vec![
            PollSourceOutcome { source: "received".to_string(), events: vec![ev], errors: vec![] },
            PollSourceOutcome {
                source: "org/rust-lang".to_string(),
                events: vec![],
                errors: vec![PollError::Client(ClientError::Server("500 Internal Server Error".to_string()))],
            },
        ],
    };
    assert_eq!(outcome.total_events(), 1);
    assert_eq!(outcome.total_errors(), 1);
    let (item, had_error) = cycle_item(outcome);
    assert!(had_error);
    let PollItem::Cycle { events, errors } = item;
    let recv: Vec<(&str, usize)> = events.iter().map(|(s, e)| (s.as_str(), e.len())).collect();
    assert_eq!(recv, vec![("received", 1), ("org/rust-lang", 0)]);
    assert_eq!(errors.len(), 1);
    assert_eq!(errors[0].0, "org/rust-lang");
    assert!(errors[0].1.contains("500"));
    assert_eq!(errors[0].1, "client error: server error: 500 Internal Server Error");
}

#[test]
fn unauthorized_cycle_error_shows_status_only() {
    let outcome = PollOutcome {
        sources: vec![PollSourceOutcome {
            source: "received".to_string(),
            events: vec![],
            errors: vec![PollError::Client(ClientError::Unauthorized("401 Unauthorized".to_string()))],
        }],
    };
    let (PollItem::Cycle { errors, .. }, had) = cycle_item(outcome);
    assert!(had);
    assert_eq!(errors, vec![("received".to_string(), "401 Unauthorized".to_string())]);
    let (PollItem::Cycle { events, errors }, had) = cycle_item(PollOutcome::default());
    assert!(!had && events.is_empty() && errors.is_empty());
}

#[test]
fn parse_event_keeps_sub_second_time() {
    let json = r#"{"id": "7", "type": "CreateEvent", "created_at": "2026-06-13T10:00:00.250Z", "repo": {"name": "x/y"}, "payload": {"ref_type": "repository"}}"#;
    let ev = parse_one(json).unwrap();
    assert_eq!(ev.created_at, gh_monitor::time::instant_of(1_781_344_800, 250_000_000));
}

#[test]
fn parse_event_keeps_leap_second() {
    let json = r#"{"id": "8", "type": "CreateEvent", "created_at": "2016-12-31T23:59:60.5Z", "repo": {"name": "x/y"}, "payload": {"ref_type": "repository"}}"#;
    let ev = parse_one(json).unwrap();
    assert_eq!(ev.created_at, gh_monitor::time::instant_of(1_483_228_799, 1_500_000_000));
    assert!(ev.created_at < gh_monitor::time::instant_of(1_483_228_800, 0));
}
