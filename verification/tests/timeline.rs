use gh_monitor::compress::{compress, CompressedNode, CompressionConfig, KindCount};
use gh_monitor::events::{EventKind, RawEvent};
use gh_monitor::group::{group_by_repo, RepoGroup};
use gh_monitor::humanize::{humanize_range, HumanRange};
use gh_monitor::snapshot::{diff, NodeId, NodeKind, TimelineNode, TimelineSnapshot};
use gh_monitor::time::{instant_of, secs_since_of, SECOND};

/// 2026-06-13T12:00:00Z, in seconds.
const FIXED_NOW: i64 = 1_781_352_000;

/// The start of Unix second `secs`.
fn at(secs: i64) -> i128 {
    instant_of(secs, 0)
}

fn ev(repo: &str, kind: EventKind, secs_ago: i64) -> RawEvent {
    RawEvent::for_test(repo.to_string(), kind, at(FIXED_NOW - secs_ago))
}

fn ev_id(id: &str, repo: &str, kind: EventKind, secs_ago: i64) -> RawEvent {
    RawEvent {
        id: id.to_string(),
        kind,
        repo_full_name: repo.to_string(),
        created_at: at(FIXED_NOW - secs_ago),
        title: None,
        url: None,
    }
}

fn group(repo: &str, events: Vec<RawEvent>) -> RepoGroup {
    RepoGroup { repo: repo.to_string(), events }
}

fn snapshot_from(events: Vec<RawEvent>) -> TimelineSnapshot {
    let groups = group_by_repo(events);
    let compressed = compress(&groups, &CompressionConfig::default());
    TimelineSnapshot::from_compressed(compressed, at(FIXED_NOW))
}

const HOUR: i64 = 3600;

#[test]
fn groups_same_repo() {
    let events = vec![
        ev("a/b", EventKind::PrOpened, 100),
        ev("a/b", EventKind::PrOpened, 50),
        ev("c/d", EventKind::IssueOpened, 30),
    ];
    let groups = group_by_repo(events);
    assert_eq!(groups.len(), 2);
    assert_eq!(groups[0].repo, "c/d");
    assert_eq!(groups[0].events.len(), 1);
    assert_eq!(groups[1].repo, "a/b");
    assert_eq!(groups[1].events.len(), 2);
}

#[test]
fn empty() {
    let groups = group_by_repo(vec![]);
    assert!(groups.is_empty());
}

#[test]
fn single() {
    let events = vec![ev("a/b", EventKind::PrOpened, 0)];
    let groups = group_by_repo(events);
    assert_eq!(groups.len(), 1);
    assert_eq!(groups[0].repo, "a/b");
}

#[test]
fn preserves_chronological_order_inside_group() {
    let events = vec![
        ev("a/b", EventKind::PrOpened, 200),
        ev("a/b", EventKind::PrOpened, 100),
        ev("a/b", EventKind::PrOpened, 50),
    ];
    let groups = group_by_repo(events);
    assert_eq!(groups[0].events.len(), 3);
    let times: Vec<_> = groups[0].events.iter().map(|e| e.created_at).collect();
    let mut sorted = times.clone();
    sorted.sort();
    assert_eq!(times, sorted, "events should be oldest-first");
}

#[test]
fn group_sorts_out_of_order_input_and_ties_keep_first_seen_repo() {
    let events = vec![
        ev_id("1", "a/b", EventKind::PrOpened, 10),
        ev_id("2", "c/d", EventKind::PrOpened, 10),
        ev_id("3", "a/b", EventKind::PrOpened, 300),
    ];
    let groups = group_by_repo(events);
    assert_eq!(groups[0].repo, "a/b");
    assert_eq!(groups[1].repo, "c/d");
    let ids: Vec<&str> = groups[0].events.iter().map(|e| e.id.as_str()).collect();
    assert_eq!(ids, vec!["3", "1"]);
}

#[test]
fn compresses_same_type_same_window() {
    let events = vec![
        ev("a/b", EventKind::PrOpened, 100),
        ev("a/b", EventKind::PrOpened, 50),
        ev("a/b", EventKind::PrOpened, 0),
    ];
    let groups = vec![group("a/b", events)];
    let nodes = compress(&groups, &CompressionConfig::default());
    assert_eq!(nodes.len(), 1);
    assert_eq!(nodes[0].pairs.len(), 1);
    assert_eq!(nodes[0].pairs[0].kind, EventKind::PrOpened);
    assert_eq!(nodes[0].pairs[0].count, 3);
    assert!(!nodes[0].standalone);
}

#[test]
fn splits_on_time_gap() {
    let events = vec![
        ev("a/b", EventKind::PrOpened, 86_400),
        ev("a/b", EventKind::PrOpened, 100),
        ev("a/b", EventKind::PrOpened, 50),
    ];
    let groups = vec![group("a/b", events)];
    let nodes = compress(&groups, &CompressionConfig::default());
    assert_eq!(nodes.len(), 2, "should split into two nodes by time gap");
}

#[test]
fn groups_multiple_kinds_in_one_node() {
    let events = vec![ev("a/b", EventKind::PrOpened, 100), ev("a/b", EventKind::PrMerged, 50)];
    let groups = vec![group("a/b", events)];
    let nodes = compress(&groups, &CompressionConfig::default());
    assert_eq!(nodes.len(), 1);
    assert_eq!(nodes[0].pairs.len(), 2);
}

#[test]
fn standalone_event_not_compressed() {
    let events = vec![ev("a/b", EventKind::RepoCreated, 100)];
    let groups = vec![group("a/b", events)];
    let nodes = compress(&groups, &CompressionConfig::default());
    assert_eq!(nodes.len(), 1);
    assert!(nodes[0].standalone);
    assert_eq!(nodes[0].pairs.len(), 1);
    assert_eq!(nodes[0].pairs[0].count, 1);
}

#[test]
fn stable_id_across_runs() {
    let events1 = vec![ev("a/b", EventKind::PrOpened, 100), ev("a/b", EventKind::PrMerged, 50)];
    let events2 = events1.clone();
    let groups1 = vec![group("a/b", events1)];
    let groups2 = vec![group("a/b", events2)];
    let n1 = compress(&groups1, &CompressionConfig::default());
    let n2 = compress(&groups2, &CompressionConfig::default());
    assert_eq!(n1[0].id, n2[0].id);
}

#[test]
fn compress_ids_links_and_window_edges() {
    let mut e1 = ev_id("1", "a/b", EventKind::PrOpened, 3 * HOUR);
    e1.url = Some("https://github.com/a/b/pull/1".to_string());
    let mut e2 = ev_id("2", "a/b", EventKind::IssueOpened, 0);
    e2.url = Some("https://github.com/a/b/issues/2".to_string());
    let e3 = ev_id("3", "a/b", EventKind::RepoCreated, 10);
    let nodes = compress(&[group("a/b", vec![e2, e3, e1])], &CompressionConfig::default());
    assert_eq!(nodes.len(), 2);
    // Both nodes' latest times: grouped node at FIXED_NOW, standalone at FIXED_NOW - 10.
    assert_eq!(nodes[0].id, format!("group:a/b:{}:PrOpened|IssueOpened", FIXED_NOW - 3 * HOUR));
    assert_eq!(nodes[0].target_url, "https://github.com/a/b/issues/2");
    assert_eq!(nodes[0].earliest, at(FIXED_NOW - 3 * HOUR));
    assert_eq!(nodes[0].latest, at(FIXED_NOW));
    assert_eq!(nodes[1].id, "standalone:a/b:3");
    assert_eq!(nodes[1].target_url, "https://github.com/a/b");
    // One second more and the window splits the chunk.
    let e4 = ev_id("4", "a/b", EventKind::PrOpened, 3 * HOUR + 1);
    let e5 = ev_id("5", "a/b", EventKind::PrOpened, 0);
    let split = compress(&[group("a/b", vec![e4, e5])], &CompressionConfig::default());
    assert_eq!(split.len(), 2);
    assert_eq!(split[0].repo_short(), "b");
}

#[test]
fn compress_spills_pairs_over_the_limit() {
    let events = vec![
        ev_id("1", "a/b", EventKind::PrOpened, 40),
        ev_id("2", "a/b", EventKind::PrMerged, 30),
        ev_id("3", "a/b", EventKind::IssueOpened, 20),
        ev_id("4", "a/b", EventKind::ReleasePublished, 10),
    ];
    let cfg = CompressionConfig { window_secs: 3 * HOUR, max_pairs_per_node: 3 };
    let nodes = compress(&[group("a/b", events)], &cfg);
    assert_eq!(nodes.len(), 2);
    assert_eq!(nodes[0].pairs.len(), 3);
    assert_eq!(nodes[1].pairs, vec![KindCount { kind: EventKind::ReleasePublished, count: 1 }]);
    assert_eq!(nodes[1].id, format!("group:a/b:{}:ReleasePublished", FIXED_NOW - 40));
}

#[test]
fn compress_config_default_values() {
    let c = CompressionConfig::default();
    assert_eq!(c.window_secs, 10_800);
    assert_eq!(c.max_pairs_per_node, 3);
}

fn node(id: &str, pairs: Vec<(KindCount,)>, label: &str, url: &str) -> TimelineNode {
    TimelineNode {
        id: NodeId::new(id),
        kind: NodeKind::Group,
        repo: "x/y".to_string(),
        pairs,
        time_label: label.to_string(),
        earliest: at(FIXED_NOW),
        latest: at(FIXED_NOW),
        target_url: url.to_string(),
    }
}

fn one_pr(count: u32) -> Vec<(KindCount,)> {
    vec![(KindCount { kind: EventKind::PrOpened, count },)]
}

#[test]
fn snapshot_from_compressed() {
    let events = vec![ev("a/b", EventKind::PrOpened, 100), ev("a/b", EventKind::PrOpened, 50)];
    let groups = group_by_repo(events);
    let compressed = compress(&groups, &CompressionConfig::default());
    let snap = TimelineSnapshot::from_compressed(compressed, at(FIXED_NOW));
    assert_eq!(snap.nodes.len(), 1);
    assert_eq!(snap.nodes[0].repo, "a/b");
    assert_eq!(snap.nodes[0].pairs[0].0.count, 2);
}

#[test]
fn diff_detects_adds() {
    let n1 = node("a", one_pr(1), "1 hr ago", "https://github.com/x/y");
    let n2 = node("b", one_pr(1), "1 hr ago", "https://github.com/x/y");
    let prev = TimelineSnapshot { nodes: vec![n1.clone()] };
    let next = TimelineSnapshot { nodes: vec![n1, n2] };
    let d = diff(&prev, &next);
    assert_eq!(d.added.len(), 1);
    assert_eq!(d.added[0].as_str(), "b");
    assert!(d.updated.is_empty());
    assert!(d.removed.is_empty());
}

#[test]
fn diff_detects_updates() {
    let n1 = node("a", one_pr(1), "1 hr ago", "https://github.com/x/y");
    let mut n2 = n1.clone();
    n2.pairs[0].0.count = 2;
    let prev = TimelineSnapshot { nodes: vec![n1] };
    let next = TimelineSnapshot { nodes: vec![n2] };
    let d = diff(&prev, &next);
    assert!(d.added.is_empty());
    assert_eq!(d.updated.len(), 1);
}

#[test]
fn diff_ignores_time_label_changes() {
    let n1 = node("a", one_pr(1), "59 mins ago", "https://github.com/x/y");
    let mut n2 = n1.clone();
    n2.time_label = "1 hr ago".to_string();
    let prev = TimelineSnapshot { nodes: vec![n1] };
    let next = TimelineSnapshot { nodes: vec![n2] };
    let d = diff(&prev, &next);
    assert!(d.added.is_empty());
    assert!(d.updated.is_empty(), "time_label alone must not trigger an update");
    assert!(d.removed.is_empty());
}

#[test]
fn diff_detects_url_change_as_update() {
    let n1 = node("a", one_pr(1), "1 hr ago", "https://github.com/x/y/pull/1");
    let mut n2 = n1.clone();
    n2.target_url = "https://github.com/x/y/pull/2".to_string();
    let prev = TimelineSnapshot { nodes: vec![n1] };
    let next = TimelineSnapshot { nodes: vec![n2] };
    let d = diff(&prev, &next);
    assert_eq!(d.updated.len(), 1, "url change must trigger an update");
}

#[test]
fn diff_detects_removals() {
    let n1 = node("a", vec![], "1 hr ago", "https://github.com/x/y");
    let prev = TimelineSnapshot { nodes: vec![n1] };
    let next = TimelineSnapshot { nodes: vec![] };
    let d = diff(&prev, &next);
    assert_eq!(d.removed.len(), 1);
}

#[test]
fn diff_of_snapshot_with_itself_is_empty() {
    let s = snapshot_from(vec![
        ev("a/b", EventKind::PrOpened, 100),
        ev("c/d", EventKind::RepoCreated, 50),
    ]);
    let d = diff(&s, &s.clone());
    assert!(d.added.is_empty() && d.updated.is_empty() && d.removed.is_empty());
    assert!(s.nodes[0].structural_eq(&s.nodes[0]));
}

#[test]
fn empty_pipeline_yields_empty_snapshot() {
    let s = snapshot_from(vec![]);
    assert!(s.nodes.is_empty());
}

#[test]
fn single_repo_prs_compress() {
    let events = vec![ev("a/b", EventKind::PrOpened, 100), ev("a/b", EventKind::PrOpened, 50)];
    let s = snapshot_from(events);
    assert_eq!(s.nodes.len(), 1);
    assert_eq!(s.nodes[0].repo, "a/b");
    assert_eq!(s.nodes[0].pairs.len(), 1);
    assert_eq!(s.nodes[0].pairs[0].0.count, 2);
    assert_eq!(s.nodes[0].pairs[0].0.kind, EventKind::PrOpened);
}

#[test]
fn two_repos_stay_separate() {
    let events = vec![ev("a/b", EventKind::PrOpened, 100), ev("c/d", EventKind::IssueOpened, 50)];
    let s = snapshot_from(events);
    assert_eq!(s.nodes.len(), 2);
    assert_eq!(s.nodes[0].repo, "c/d");
    assert_eq!(s.nodes[1].repo, "a/b");
}

#[test]
fn new_repo_stands_alone() {
    let events = vec![ev("fresh/repo", EventKind::RepoCreated, 30)];
    let s = snapshot_from(events);
    assert_eq!(s.nodes.len(), 1);
    assert!(s.nodes[0].time_label.contains("sec") || s.nodes[0].time_label.contains("min"));
    assert_eq!(s.nodes[0].pairs[0].0.kind, EventKind::RepoCreated);
    assert_eq!(s.nodes[0].kind, NodeKind::Standalone);
}

#[test]
fn mixed_kinds_grouped_in_one_node() {
    let events = vec![
        ev("a/b", EventKind::PrOpened, 200),
        ev("a/b", EventKind::PrMerged, 150),
        ev("a/b", EventKind::IssueOpened, 100),
    ];
    let s = snapshot_from(events);
    assert_eq!(s.nodes.len(), 1, "all kinds in same repo collapse into one node");
    assert_eq!(s.nodes[0].pairs.len(), 3);
}

#[test]
fn diff_detects_evolution() {
    let first = snapshot_from(vec![ev("a/b", EventKind::PrOpened, 100), ev("a/b", EventKind::PrOpened, 60)]);
    let second = snapshot_from(vec![
        ev("a/b", EventKind::PrOpened, 100),
        ev("a/b", EventKind::PrOpened, 60),
        ev("a/b", EventKind::PrOpened, 30),
    ]);
    let d = diff(&first, &second);
    assert!(d.added.is_empty(), "no new nodes, just updated");
    assert_eq!(d.updated.len(), 1, "the existing node's count changed");
    assert!(d.removed.is_empty());
}

#[test]
fn time_label_humanized() {
    let events = vec![ev("a/b", EventKind::PrOpened, 60 * 60), ev("a/b", EventKind::PrOpened, 60 * 60 + 30)];
    let s = snapshot_from(events);
    assert_eq!(s.nodes.len(), 1);
    let label = &s.nodes[0].time_label;
    assert!(label.contains("hr"), "expected 'hr' in label, got: {label}");
    assert!(label.contains("ago"), "expected 'ago' in label, got: {label}");
}

fn pretty(nodes: &[CompressedNode]) -> String {
    let mut s = String::new();
    for n in nodes {
        s.push_str(&format!("- id: {}\n", n.id));
        s.push_str(&format!("  repo: {}\n", n.repo));
        s.push_str(&format!("  span: {} .. {} ({})\n", n.earliest / SECOND, n.latest / SECOND, (n.latest - n.earliest) / SECOND));
        s.push_str(&format!("  standalone: {}\n", n.standalone));
        s.push_str("  pairs:\n");
        for p in &n.pairs {
            s.push_str(&format!("    - kind: {:?}, count: {}\n", p.kind, p.count));
        }
    }
    s
}

#[test]
fn snapshot_single_repo_same_kind() {
    let events = vec![
        ev_id("e1", "octocat/Hello-World", EventKind::PrOpened, 100),
        ev_id("e2", "octocat/Hello-World", EventKind::PrOpened, 50),
    ];
    let nodes = compress(&group_by_repo(events), &CompressionConfig::default());
    let expected = format!(
        "- id: group:octocat/Hello-World:{e}:PrOpened\n  repo: octocat/Hello-World\n  span: {e} .. {l} (50)\n  standalone: false\n  pairs:\n    - kind: PrOpened, count: 2\n",
        e = FIXED_NOW - 100,
        l = FIXED_NOW - 50
    );
    assert_eq!(pretty(&nodes), expected);
}

#[test]
fn snapshot_multi_repo_mixed_kinds() {
    let events = vec![
        ev_id("e1", "a/b", EventKind::PrOpened, 200),
        ev_id("e2", "a/b", EventKind::PrMerged, 150),
        ev_id("e3", "a/b", EventKind::IssueOpened, 100),
        ev_id("e4", "c/d", EventKind::ReleasePublished, 60),
    ];
    let nodes = compress(&group_by_repo(events), &CompressionConfig::default());
    let expected = format!(
        "- id: group:c/d:{r}:ReleasePublished\n  repo: c/d\n  span: {r} .. {r} (0)\n  standalone: false\n  pairs:\n    - kind: ReleasePublished, count: 1\n\
         - id: group:a/b:{e}:PrOpened|PrMerged|IssueOpened\n  repo: a/b\n  span: {e} .. {l} (100)\n  standalone: false\n  pairs:\n    - kind: PrOpened, count: 1\n    - kind: PrMerged, count: 1\n    - kind: IssueOpened, count: 1\n",
        r = FIXED_NOW - 60,
        e = FIXED_NOW - 200,
        l = FIXED_NOW - 100
    );
    assert_eq!(pretty(&nodes), expected);
}

#[test]
fn snapshot_standalone_repo_created() {
    let events = vec![ev_id("e1", "fresh/repo", EventKind::RepoCreated, 30)];
    let nodes = compress(&group_by_repo(events), &CompressionConfig::default());
    let expected = format!(
        "- id: standalone:fresh/repo:e1\n  repo: fresh/repo\n  span: {t} .. {t} (0)\n  standalone: true\n  pairs:\n    - kind: RepoCreated, count: 1\n",
        t = FIXED_NOW - 30
    );
    assert_eq!(pretty(&nodes), expected);
}

#[test]
fn point_when_same_time() {
    let r = humanize_range(at(FIXED_NOW), at(FIXED_NOW), at(FIXED_NOW));
    assert!(matches!(r, HumanRange::Point(_)));
}

#[test]
fn point_when_close() {
    let r = humanize_range(at(FIXED_NOW - 30), at(FIXED_NOW), at(FIXED_NOW));
    assert!(matches!(r, HumanRange::Point(_)));
}

#[test]
fn range_when_apart() {
    let r = humanize_range(at(FIXED_NOW - 3 * HOUR), at(FIXED_NOW - HOUR), at(FIXED_NOW));
    match r {
        HumanRange::Range(s) => {
            assert!(s.contains("hr"), "got: {}", s);
            assert!(s.contains("ago"), "got: {}", s);
        }
        HumanRange::Point(s) => panic!("expected Range, got Point({})", s),
    }
}

#[test]
fn range_pins_exact_format() {
    let r = humanize_range(at(FIXED_NOW - 3 * HOUR), at(FIXED_NOW - HOUR), at(FIXED_NOW));
    assert_eq!(r.as_str(), "1-3 hrs ago");
}

#[test]
fn range_does_not_double_ago() {
    let r = humanize_range(at(FIXED_NOW - 3 * HOUR), at(FIXED_NOW - HOUR), at(FIXED_NOW));
    let s = r.as_str();
    assert_eq!(s.matches("ago").count(), 1, "got: {s}");
}

#[test]
fn range_low_first_even_when_inputs_reversed() {
    let r = humanize_range(at(FIXED_NOW - HOUR), at(FIXED_NOW - 3 * HOUR), at(FIXED_NOW));
    assert_eq!(r.as_str(), "1-3 hrs ago");
}

#[test]
fn range_singular_when_high_is_one() {
    let r = humanize_range(at(FIXED_NOW - 120), at(FIXED_NOW - 60), at(FIXED_NOW));
    assert_eq!(r.as_str(), "1-2 mins ago");
}

#[test]
fn range_same_unit_same_value_collapses_to_point() {
    let r = humanize_range(at(FIXED_NOW - 2 * HOUR - 30 * 60), at(FIXED_NOW - 2 * HOUR - 5 * 60), at(FIXED_NOW));
    assert!(matches!(r, HumanRange::Point(_)));
    assert_eq!(r.as_str(), "2 hrs ago");
}

#[test]
fn just_now() {
    let r = humanize_range(at(FIXED_NOW), at(FIXED_NOW), at(FIXED_NOW));
    assert!(r.as_str().contains("now"));
}

#[test]
fn hours_ago() {
    let r = humanize_range(at(FIXED_NOW - 2 * HOUR), at(FIXED_NOW - 2 * HOUR), at(FIXED_NOW));
    assert!(r.as_str().contains("hr"));
}

#[test]
fn days_ago() {
    let r = humanize_range(at(FIXED_NOW - 2 * 86_400), at(FIXED_NOW - 2 * 86_400), at(FIXED_NOW));
    assert!(r.as_str().contains("day"));
}

#[test]
fn future_labels_use_in() {
    let r = humanize_range(at(FIXED_NOW + 3 * HOUR), at(FIXED_NOW + HOUR), at(FIXED_NOW));
    assert_eq!(r.as_str(), "in 1-3 hrs");
    let p = humanize_range(at(FIXED_NOW + 2 * 86_400), at(FIXED_NOW + 2 * 86_400), at(FIXED_NOW));
    assert_eq!(p.as_str(), "in 2 days");
}

#[test]
fn proptest_point_for_same_instant() {
    let mut off: i64 = -86_400;
    while off < 86_400 {
        let t = FIXED_NOW + off;
        let r = humanize_range(at(t), at(t), at(FIXED_NOW));
        assert!(matches!(r, HumanRange::Point(_)), "offset {off}");
        off += 997;
    }
}

#[test]
fn proptest_label_is_known_point() {
    let known_units = ["sec", "secs", "min", "mins", "hr", "hrs", "day", "days", "wk", "wks", "mo", "mos", "yr", "yrs"];
    let mut off: i64 = -86_400;
    while off < 86_400 {
        let t = FIXED_NOW + off;
        let label = humanize_range(at(t), at(t), at(FIXED_NOW)).as_str().to_string();
        let is_known = label == "just now" || known_units.iter().any(|u| label.contains(u));
        assert!(is_known, "unexpected label: {label}");
        off += 991;
    }
}

#[test]
fn sub_second_future_is_just_now() {
    // 0.7 s ahead of now is zero whole seconds away: "just now".
    let now = at(FIXED_NOW) + 200_000_000;
    let t = at(FIXED_NOW) + 900_000_000;
    assert_eq!(humanize_range(t, t, now).as_str(), "just now");
}

#[test]
fn whole_seconds_count_toward_zero() {
    // 59.9 s apart is under a minute; 5.5 s ago is "5 secs ago".
    let now = at(FIXED_NOW);
    let r = humanize_range(instant_of(FIXED_NOW - 60, 100_000_000), now, now);
    assert!(matches!(r, HumanRange::Point(_)));
    let t = instant_of(FIXED_NOW - 6, 500_000_000);
    assert_eq!(humanize_range(t, t, now).as_str(), "5 secs ago");
}

#[test]
fn same_second_events_keep_sub_second_order() {
    let a = RawEvent::for_test("a/b".to_string(), EventKind::PrOpened, at(FIXED_NOW) + 800_000_000);
    let b = RawEvent::for_test("c/d".to_string(), EventKind::PrOpened, at(FIXED_NOW) + 100_000_000);
    let groups = group_by_repo(vec![b, a]);
    assert_eq!(groups[0].repo, "a/b", "the later event's repo comes first");
    let nodes = compress(&groups, &CompressionConfig::default());
    assert_eq!(nodes[0].id, format!("group:a/b:{}:PrOpened", FIXED_NOW));
}

#[test]
fn leap_second_lies_before_the_next_second() {
    // 2016-12-31T23:59:60.5Z: chrono holds it as second 23:59:59 with
    // 1.5e9 nanoseconds.
    let leap = instant_of(1_483_228_799, 1_500_000_000);
    let before = instant_of(1_483_228_799, 0);
    let midnight = instant_of(1_483_228_800, 0);
    assert!(before < leap && leap < midnight);
    assert_eq!(secs_since_of(leap, before), 1);
    assert_eq!(secs_since_of(midnight, leap), 0);
    assert_eq!(secs_since_of(before, leap), -1);
    let a = RawEvent::for_test("a/b".to_string(), EventKind::PrOpened, leap);
    let b = RawEvent::for_test("c/d".to_string(), EventKind::PrOpened, midnight);
    let groups = group_by_repo(vec![a, b]);
    assert_eq!(groups[0].repo, "c/d", "midnight comes after the leap second");
}
