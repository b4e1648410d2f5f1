use gh_monitor::auth::{Auth, AuthError};
use gh_monitor::config::{repo_form, AuthSource, Config, WindowPosition};
use gh_monitor::setup::{build_config, parse_list, read_interval_answer, IntervalAnswer};
use gh_monitor::settings::{SettingsField, SettingsForm};

#[test]
fn empty_pat_fails() {
    let c = Config::default();
    assert!(c.validate().is_err());
}

#[test]
fn no_sources_fails() {
    let c = Config { pat: "ghp_abc".to_string(), ..Config::default() };
    assert!(c.validate().is_err());
}

#[test]
fn valid_username() {
    let c = Config { pat: "ghp_abc".to_string(), username: Some("octocat".to_string()), ..Config::default() };
    assert!(c.validate().is_ok());
}

#[test]
fn bad_repo_format_fails() {
    let c = Config { pat: "ghp_abc".to_string(), repos: vec!["nope".to_string()], ..Config::default() };
    assert!(c.validate().is_err());
}

#[test]
fn repo_leading_slash_fails() {
    let c = Config { pat: "ghp_abc".to_string(), repos: vec!["/x".to_string()], ..Config::default() };
    let err = c.validate().unwrap_err();
    assert!(err.contains("owner/name"), "unexpected error: {err}");
}

#[test]
fn repo_trailing_slash_fails() {
    let c = Config { pat: "ghp_abc".to_string(), repos: vec!["x/".to_string()], ..Config::default() };
    let err = c.validate().unwrap_err();
    assert!(err.contains("owner/name"), "unexpected error: {err}");
}

#[test]
fn repo_too_many_slashes_fails() {
    let c = Config { pat: "ghp_abc".to_string(), repos: vec!["a/b/c".to_string()], ..Config::default() };
    let err = c.validate().unwrap_err();
    assert!(err.contains("owner/name"), "unexpected error: {err}");
}

#[test]
fn repo_minimal_form_ok() {
    let c = Config { pat: "ghp_abc".to_string(), repos: vec!["a/b".to_string()], ..Config::default() };
    assert!(c.validate().is_ok());
}

#[test]
fn repo_realistic_form_ok() {
    let c = Config { pat: "ghp_abc".to_string(), repos: vec!["rust-lang/rust".to_string()], ..Config::default() };
    assert!(c.validate().is_ok());
}

#[test]
fn auth_source_defaults_to_pat() {
    let c = Config::default();
    assert_eq!(c.auth_source, AuthSource::Pat);
}

#[test]
fn notifications_enabled_defaults_to_false() {
    let c = Config::default();
    assert!(!c.notifications_enabled);
}

#[test]
fn validate_messages_are_exact_and_ordered() {
    let c = Config { pat: "  ".to_string(), ..Config::default() };
    assert_eq!(c.validate(), Err("pat is empty".to_string()));
    let c = Config { pat: "p".to_string(), ..Config::default() };
    assert_eq!(c.validate(), Err("at least one of username, orgs, or repos must be set".to_string()));
    let c = Config { pat: "p".to_string(), orgs: vec!["o".to_string()], poll_interval_secs: 4, ..Config::default() };
    assert_eq!(c.validate(), Err("poll_interval_secs must be >= 5".to_string()));
    let c = Config {
        pat: "p".to_string(),
        repos: vec!["a/b".to_string(), "bad".to_string(), "x/".to_string()],
        poll_interval_secs: 5,
        ..Config::default()
    };
    assert_eq!(c.validate(), Err("repo 'bad' must be in 'owner/name' form".to_string()));
    assert_eq!(Config::default().poll_interval_secs, 600);
    assert!(repo_form("o/n"));
    assert!(!repo_form("o/"));
}

#[test]
fn empty_pat_rejected() {
    assert!(Auth::new("").is_err());
    assert!(Auth::new("   ").is_err());
    assert_eq!(Auth::new("\t").unwrap_err(), AuthError::Empty);
    assert_eq!(AuthError::Empty.message(), "personal access token is empty");
}

#[test]
fn header_value() {
    let a = Auth::new("ghp_abc").unwrap();
    assert_eq!(a.header_value(), "Bearer ghp_abc");
}

#[test]
fn parse_list_handles_commas_and_whitespace() {
    assert_eq!(parse_list(""), Vec::<String>::new());
    assert_eq!(parse_list("a"), vec!["a".to_string()]);
    assert_eq!(parse_list("a,b,c"), vec!["a".to_string(), "b".to_string(), "c".to_string()]);
    assert_eq!(parse_list(" rust-lang , tokio-rs ,, "), vec!["rust-lang".to_string(), "tokio-rs".to_string()]);
}

#[test]
fn build_config_rejects_empty_pat() {
    let err = build_config(String::new(), "octocat".to_string(), vec![], vec![], 30).unwrap_err();
    assert!(err.contains("pat"), "unexpected error: {err}");
}

#[test]
fn build_config_rejects_no_sources() {
    let err = build_config("ghp_abc".to_string(), String::new(), vec![], vec![], 30).unwrap_err();
    assert!(err.contains("username") || err.contains("orgs") || err.contains("repos"));
}

#[test]
fn build_config_rejects_bad_repo_format() {
    let err = build_config("ghp_abc".to_string(), "octocat".to_string(), vec![], vec!["nope".to_string()], 30).unwrap_err();
    assert!(err.contains("owner/name"));
}

#[test]
fn build_config_allows_empty_username_when_orgs_set() {
    let cfg = build_config("ghp_abc".to_string(), String::new(), vec!["rust-lang".to_string()], vec![], 30)
        .expect("valid: orgs-only is OK");
    assert!(cfg.username.is_none());
    assert_eq!(cfg.orgs, vec!["rust-lang".to_string()]);
}

#[test]
fn build_config_rejects_low_poll_interval() {
    let err = build_config("ghp_abc".to_string(), "octocat".to_string(), vec![], vec![], 2).unwrap_err();
    assert!(err.contains("5"));
}

#[test]
fn build_config_keeps_answers() {
    let cfg = build_config(
        "ghp_test_token_abc".to_string(),
        "octocat".to_string(),
        vec!["rust-lang".to_string()],
        vec!["octocat/Hello-World".to_string()],
        30,
    )
    .expect("valid config");
    assert_eq!(cfg.pat, "ghp_test_token_abc");
    assert_eq!(cfg.username.as_deref(), Some("octocat"));
    assert_eq!(cfg.repos, vec!["octocat/Hello-World".to_string()]);
    assert_eq!(cfg.poll_interval_secs, 30);
    assert!(cfg.window_position.is_none());
}

#[test]
fn poll_interval_answers() {
    assert_eq!(read_interval_answer(""), IntervalAnswer::Seconds(600));
    assert_eq!(read_interval_answer("5"), IntervalAnswer::Seconds(5));
    assert_eq!(read_interval_answer("4"), IntervalAnswer::TooShort);
    assert_eq!(read_interval_answer("five"), IntervalAnswer::NotANumber);
}

fn sample() -> Config {
    Config {
        pat: "ghp_test".to_string(),
        auth_source: AuthSource::Pat,
        username: Some("octocat".to_string()),
        orgs: vec!["rust-lang".to_string(), "tokio-rs".to_string()],
        repos: vec!["octocat/Hello-World".to_string()],
        poll_interval_secs: 600,
        notifications_enabled: true,
        window_position: Some(WindowPosition { x: 10, y: 20 }),
    }
}

#[test]
fn settings_form_from_config_roundtrips() {
    let cfg = sample();
    let form = SettingsForm::from_config(&cfg);
    let back = form.to_config(&cfg).expect("form should validate");
    assert_eq!(back.pat, cfg.pat);
    assert_eq!(back.auth_source, cfg.auth_source);
    assert_eq!(back.username, cfg.username);
    assert_eq!(back.orgs, cfg.orgs);
    assert_eq!(back.repos, cfg.repos);
    assert_eq!(back.poll_interval_secs, cfg.poll_interval_secs);
    assert_eq!(back.notifications_enabled, cfg.notifications_enabled);
    assert_eq!(back.window_position, cfg.window_position);
}

#[test]
fn settings_form_to_config_rejects_empty_pat() {
    let cfg = sample();
    let mut form = SettingsForm::from_config(&cfg);
    form.update_field(SettingsField::Pat, String::new());
    let err = form.to_config(&cfg).unwrap_err();
    assert!(err.contains("pat"), "unexpected error: {err}");
}

#[test]
fn settings_form_to_config_rejects_whitespace_pat() {
    let cfg = sample();
    let mut form = SettingsForm::from_config(&cfg);
    form.update_field(SettingsField::Pat, "   ".to_string());
    assert!(form.to_config(&cfg).is_err());
}

#[test]
fn settings_form_to_config_rejects_malformed_repo() {
    let cfg = sample();
    let mut form = SettingsForm::from_config(&cfg);
    form.update_field(SettingsField::Repos, "not-a-slash".to_string());
    let err = form.to_config(&cfg).unwrap_err();
    assert!(err.contains("owner/name"), "unexpected error: {err}");
}

#[test]
fn settings_form_to_config_rejects_non_numeric_poll_interval() {
    let cfg = sample();
    let mut form = SettingsForm::from_config(&cfg);
    form.update_field(SettingsField::PollInterval, "abc".to_string());
    let err = form.to_config(&cfg).unwrap_err();
    assert!(err.contains("whole number"), "unexpected error: {err}");
    assert_eq!(err, "poll interval must be a whole number of seconds (got \"abc\")");
}

#[test]
fn settings_form_to_config_rejects_low_poll_interval() {
    let cfg = sample();
    let mut form = SettingsForm::from_config(&cfg);
    form.update_field(SettingsField::PollInterval, "2".to_string());
    let err = form.to_config(&cfg).unwrap_err();
    assert!(err.contains("5"), "unexpected error: {err}");
}

#[test]
fn settings_form_to_config_rejects_missing_sources() {
    let cfg = sample();
    let mut form = SettingsForm::from_default();
    form.update_field(SettingsField::Pat, "ghp_test".to_string());
    let err = form.to_config(&cfg).unwrap_err();
    assert!(err.contains("username") || err.contains("orgs") || err.contains("repos"), "unexpected error: {err}");
}

#[test]
fn settings_form_update_field_changes_value() {
    let cfg = sample();
    let mut form = SettingsForm::from_config(&cfg);
    let changed = form.update_field(SettingsField::Pat, "ghp_new".to_string());
    assert!(changed);
    assert_eq!(form.pat(), "ghp_new");
}

#[test]
fn settings_form_update_field_no_change_returns_false() {
    let cfg = sample();
    let mut form = SettingsForm::from_config(&cfg);
    let changed = form.update_field(SettingsField::Pat, cfg.pat.clone());
    assert!(!changed, "identical value should report no change");
}

#[test]
fn settings_form_update_field_auth_source_parses() {
    let cfg = sample();
    let mut form = SettingsForm::from_config(&cfg);
    form.update_field(SettingsField::AuthSource, "gh".to_string());
    assert_eq!(form.auth_source(), AuthSource::Gh);
    form.update_field(SettingsField::AuthSource, "pat".to_string());
    assert_eq!(form.auth_source(), AuthSource::Pat);
}

#[test]
fn settings_form_update_field_notifications_parses_truthy() {
    let cfg = sample();
    let mut form = SettingsForm::from_config(&cfg);
    form.update_field(SettingsField::Notifications, "true".to_string());
    assert!(form.notifications_enabled());
    form.update_field(SettingsField::Notifications, "false".to_string());
    assert!(!form.notifications_enabled());
    form.update_field(SettingsField::Notifications, "on".to_string());
    assert!(form.notifications_enabled());
}

#[test]
fn settings_form_update_field_lists_keep_whitespace_layout() {
    let cfg = sample();
    let mut form = SettingsForm::from_config(&cfg);
    form.update_field(SettingsField::Orgs, " a , b ,  c ".to_string());
    assert_eq!(form.orgs(), " a , b ,  c ");
    let back = form.to_config(&cfg).expect("valid");
    assert_eq!(back.orgs, vec!["a".to_string(), "b".to_string(), "c".to_string()]);
}

#[test]
fn settings_form_default_matches_config_default() {
    let form = SettingsForm::from_default();
    assert_eq!(form.pat(), "");
    assert_eq!(form.auth_source(), AuthSource::default());
    assert_eq!(form.username(), "");
    assert_eq!(form.orgs(), "");
    assert_eq!(form.repos(), "");
    assert_eq!(form.poll_interval_secs(), "600");
    assert!(!form.notifications_enabled());
}

#[test]
fn settings_form_default_roundtrips_via_config_default() {
    let form = SettingsForm::from_default();
    let cfg = Config::default();
    assert_eq!(form.pat(), cfg.pat);
    assert_eq!(form.username(), cfg.username.as_deref().unwrap_or(""));
    assert_eq!(form.orgs(), cfg.orgs.join(", "));
    assert_eq!(form.repos(), cfg.repos.join(", "));
    assert_eq!(form.poll_interval_secs(), cfg.poll_interval_secs.to_string());
    assert_eq!(form.notifications_enabled(), cfg.notifications_enabled);
}

#[test]
fn settings_form_to_config_preserves_window_position() {
    let mut cfg = sample();
    cfg.window_position = Some(WindowPosition { x: 123, y: 456 });
    let form = SettingsForm::from_config(&cfg);
    let back = form.to_config(&cfg).expect("valid");
    assert_eq!(back.window_position, Some(WindowPosition { x: 123, y: 456 }));
}

#[test]
fn settings_form_joins_lists_for_display() {
    let form = SettingsForm::from_config(&sample());
    assert_eq!(form.orgs(), "rust-lang, tokio-rs");
    assert_eq!(form.username(), "octocat");
    assert_eq!(form.poll_interval_secs(), "600");
}

#[test]
fn settings_form_round_trip_is_whole_config() {
    let cfg = sample();
    let back = SettingsForm::from_config(&cfg).to_config(&cfg).expect("valid");
    assert_eq!(back, cfg);
}

#[test]
fn settings_form_save_trims_untrimmed_token() {
    let mut cfg = sample();
    cfg.pat = "  ghp_test ".to_string();
    let back = SettingsForm::from_config(&cfg).to_config(&cfg).expect("valid");
    assert_eq!(back.pat, "ghp_test");
    assert_ne!(back, cfg);
}
