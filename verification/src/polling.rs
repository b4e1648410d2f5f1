//! The decisions of the polling loop: which sources are polled in which
//! order and under which labels, and how a cycle's outcome is reported.
//! The loop itself (timers, requests, channels) runs in the application.
use vstd::prelude::*;
use crate::client::{ClientError, ClientErrorView, client_error_text, received_events_url, org_events_url, repo_events_url};
use crate::config::{repo_form, repo_form_ok};
use crate::events::{RawEvent, opt_view};
use crate::text::{split_once, split_once_str, views, decimal, u64_to_decimal};

verus! {

/// What to poll.
#[derive(Debug, Clone, PartialEq, Eq)]
pub struct PollConfig {
    /// Username to fetch `received_events` for. If `None`, skip.
    pub username: Option<String>,
    /// Orgs to fetch `org_events` for.
    pub orgs: Vec<String>,
    /// Specific repos to fetch events for ("owner/name").
    pub repos: Vec<String>,
    /// Poll interval in seconds.
    pub interval_secs: u64,
}

impl Default for PollConfig {
    fn default() -> (r: Self)
        ensures
            r.username is None,
            r.orgs@.len() == 0,
            r.repos@.len() == 0,
            r.interval_secs == 0,
    {
        PollConfig { username: None, orgs: Vec::new(), repos: Vec::new(), interval_secs: 0 }
    }
}

impl PollConfig {
    /// A new config with default 30s interval and no sources.
    pub fn with_default_interval() -> (r: Self)
        ensures
            r.username is None,
            r.orgs@.len() == 0,
            r.repos@.len() == 0,
            r.interval_secs == 30,
    {
        PollConfig { username: None, orgs: Vec::new(), repos: Vec::new(), interval_secs: 30 }
    }
}

/// One request of a poll cycle.
#[derive(Debug, Clone, PartialEq, Eq)]
pub enum PollTarget {
    /// The user's `received_events`.
    Received(String),
    /// An org's events.
    Org(String),
    /// A repo's events.
    Repo { owner: String, name: String },
}

/// The value of a [`PollTarget`].
pub enum TargetView {
    Received(Seq<char>),
    Org(Seq<char>),
    Repo { owner: Seq<char>, name: Seq<char> },
}

impl View for PollTarget {
    type V = TargetView;

    open spec fn view(&self) -> TargetView {
        match self {
            PollTarget::Received(u) => TargetView::Received(u@),
            PollTarget::Org(o) => TargetView::Org(o@),
            PollTarget::Repo { owner, name } => TargetView::Repo { owner: owner@, name: name@ },
        }
    }
}

/// The source label of a target: `received`, `org/{org}` or
/// `repo/{owner}/{name}`.
pub open spec fn target_label(t: TargetView) -> Seq<char> {
    match t {
        TargetView::Received(_) => "received"@,
        TargetView::Org(o) => "org/"@ + o,
        TargetView::Repo { owner, name } => "repo/"@ + owner + "/"@ + name,
    }
}

/// The repo targets of `repos`, in order, skipping repos not of the form
/// `owner/name`.
pub open spec fn repo_targets(repos: Seq<Seq<char>>) -> Seq<TargetView>
    decreases repos.len(),
{
    if repos.len() == 0 {
        Seq::empty()
    } else {
        let p = repo_targets(repos.drop_last());
        let r = repos.last();
        if repo_form_ok(r) {
            let (o, n) = split_once(r, '/').unwrap();
            p.push(TargetView::Repo { owner: o, name: n })
        } else {
            p
        }
    }
}

/// The requests of a poll cycle, in poll order: the user's received
/// events (when a username is set), then each org, then each well-formed
/// repo.
pub open spec fn poll_plan(username: Option<Seq<char>>, orgs: Seq<Seq<char>>, repos: Seq<Seq<char>>) -> Seq<TargetView> {
    (match username {
        Some(u) => seq![TargetView::Received(u)],
        None => Seq::empty(),
    }) + orgs.map_values(|o: Seq<char>| TargetView::Org(o)) + repo_targets(repos)
}

/// The plan of the config `cfg`.
pub open spec fn plan_of(cfg: PollConfig) -> Seq<TargetView> {
    poll_plan(opt_view(cfg.username), views(cfg.orgs@), views(cfg.repos@))
}

/// The labels of the targets `ts`.
pub open spec fn labels(ts: Seq<TargetView>) -> Seq<Seq<char>> {
    ts.map_values(|t: TargetView| target_label(t))
}

/// The requests of one poll cycle, in poll order.
pub fn poll_targets(cfg: &PollConfig) -> (r: Vec<PollTarget>)
    ensures
        crate::order::vals(r@) == plan_of(*cfg),
{
    let ghost orgs = views(cfg.orgs@);
    let ghost repos = views(cfg.repos@);
    let mut out: Vec<PollTarget> = Vec::new();
    match &cfg.username {
        Some(u) => out.push(PollTarget::Received(u.clone())),
        None => {},
    }
    let ghost head = crate::order::vals(out@);
    assert(head =~= (match opt_view(cfg.username) {
        Some(u) => seq![TargetView::Received(u)],
        None => Seq::<TargetView>::empty(),
    }));
    let n = cfg.orgs.len();
    let mut i: usize = 0;
    while i < n
        invariant
            n == cfg.orgs@.len(),
            orgs == views(cfg.orgs@),
            i <= n,
            crate::order::vals(out@) == head + orgs.take(i as int).map_values(|o: Seq<char>| TargetView::Org(o)),
        decreases n - i,
    {
        let ghost before = crate::order::vals(out@);
        out.push(PollTarget::Org(cfg.orgs[i].clone()));
        assert(orgs[i as int] == cfg.orgs@[i as int]@);
        assert(crate::order::vals(out@) =~= before.push(TargetView::Org(orgs[i as int])));
        assert(orgs.take(i + 1).map_values(|o: Seq<char>| TargetView::Org(o)) =~= orgs.take(i as int).map_values(
            |o: Seq<char>| TargetView::Org(o),
        ).push(TargetView::Org(orgs[i as int])));
        i = i + 1;
    }
    assert(orgs.take(n as int) =~= orgs);
    let ghost mid = crate::order::vals(out@);
    let m = cfg.repos.len();
    let mut j: usize = 0;
    assert(repos.take(0) =~= Seq::<Seq<char>>::empty());
    assert(mid + repo_targets(repos.take(0)) =~= mid);
    while j < m
        invariant
            m == cfg.repos@.len(),
            repos == views(cfg.repos@),
            j <= m,
            crate::order::vals(out@) == mid + repo_targets(repos.take(j as int)),
        decreases m - j,
    {
        assert(repos.take(j + 1).drop_last() =~= repos.take(j as int));
        assert(repos[j as int] == cfg.repos@[j as int]@);
        let r = cfg.repos[j].as_str();
        if repo_form(r) {
            match split_once_str(r, '/') {
                Some((o, nm)) => {
                    let ghost before = crate::order::vals(out@);
                    out.push(PollTarget::Repo { owner: o, name: nm });
                    assert(crate::order::vals(out@) =~= before.push(out@.last()@));
                },
                None => {},
            }
        }
        j = j + 1;
    }
    assert(repos.take(m as int) =~= repos);
    out
}

/// The source label of a target.
pub fn label_of(t: &PollTarget) -> (r: String)
    ensures
        r@ == target_label(t@),
{
    match t {
        PollTarget::Received(_) => String::from_str("received"),
        PollTarget::Org(o) => String::from_str("org/").concat(o.as_str()),
        PollTarget::Repo { owner, name } => String::from_str("repo/").concat(owner.as_str()).concat("/").concat(
            name.as_str(),
        ),
    }
}

/// The URL a target is fetched from, under the API base `base`.
pub fn target_url(base: &str, t: &PollTarget) -> (r: String)
    ensures
        r@ == match t@ {
            TargetView::Received(u) => base@ + "/users/"@ + u + "/received_events"@,
            TargetView::Org(o) => base@ + "/orgs/"@ + o + "/events"@,
            TargetView::Repo { owner, name } => base@ + "/repos/"@ + owner + "/"@ + name + "/events"@,
        },
{
    match t {
        PollTarget::Received(u) => received_events_url(base, u.as_str()),
        PollTarget::Org(o) => org_events_url(base, o.as_str()),
        PollTarget::Repo { owner, name } => repo_events_url(base, owner.as_str(), name.as_str()),
    }
}

/// The source labels of a config, one per request in poll order.
/// Repos that aren't in `owner/name` form (e.g. `"nope"`, `"/x"`,
/// `"a/b/c"`) are dropped here, exactly as the poll plan drops them, so
/// the labels stay aligned with the requests.
pub fn intern_sources(cfg: &PollConfig) -> (r: Vec<String>)
    ensures
        views(r@) == labels(plan_of(*cfg)),
{
    let targets = poll_targets(cfg);
    let mut out: Vec<String> = Vec::new();
    let n = targets.len();
    let mut i: usize = 0;
    while i < n
        invariant
            n == targets@.len(),
            crate::order::vals(targets@) == plan_of(*cfg),
            i <= n,
            out@.len() == i,
            forall|k: int| 0 <= k < i ==> (#[trigger] out@[k])@ == target_label(targets@[k]@),
        decreases n - i,
    {
        out.push(label_of(&targets[i]));
        i = i + 1;
    }
    assert(views(out@) =~= labels(plan_of(*cfg))) by {
        assert forall|k: int| 0 <= k < n implies views(out@)[k] == labels(plan_of(*cfg))[k] by {
            assert(crate::order::vals(targets@)[k] == targets@[k]@);
        }
    }
    out
}

/// Errors from the poller.
#[derive(Debug)]
pub enum PollError {
    /// A request failed.
    Client(ClientError),
    /// The poller cannot run with its configuration.
    Auth(String),
}

/// The value of a [`PollError`].
pub enum PollErrorView {
    Client(ClientErrorView),
    Auth(Seq<char>),
}

impl View for PollError {
    type V = PollErrorView;

    open spec fn view(&self) -> PollErrorView {
        match self {
            PollError::Client(c) => PollErrorView::Client(c@),
            PollError::Auth(s) => PollErrorView::Auth(s@),
        }
    }
}

impl PollError {
    /// The error's message, as its `Display` writes it.
    pub fn message(&self) -> (r: String)
        ensures
            match self@ {
                PollErrorView::Client(c) => if c is Http {
                    ("client error: "@ + "HTTP error: "@).is_prefix_of(r@)
                } else {
                    r@ == "client error: "@ + client_error_text(c)
                },
                PollErrorView::Auth(s) => r@ == "auth error: "@ + s,
            },
    {
        match self {
            PollError::Client(c) => {
                let m = c.message();
                let r = String::from_str("client error: ").concat(m.as_str());
                proof {
                    if c@ is Http {
                        let a = "client error: "@;
                        let b = "HTTP error: "@;
                        assert(b.is_prefix_of(m@));
                        assert(r@ == a + m@);
                        assert(r@.subrange(0, (a + b).len() as int) =~= a + b) by {
                            assert forall|i: int| 0 <= i < (a + b).len() implies r@[i] == (a + b)[i] by {
                                if i >= a.len() {
                                    assert(m@.subrange(0, b.len() as int)[i - a.len()] == b[i - a.len()]);
                                }
                            }
                        }
                    }
                }
                r
            },
            PollError::Auth(s) => String::from_str("auth error: ").concat(s.as_str()),
        }
    }
}

/// The text of the error a poller without sources refuses to start with.
pub open spec fn no_sources_text() -> Seq<char> {
    "poller has no sources: set username, orgs, or repos"@
}

/// A poller needs at least one source: a username, an org or a repo.
pub fn check_sources(cfg: &PollConfig) -> (r: Result<(), PollError>)
    ensures
        match r {
            Ok(()) => !(cfg.username is None && cfg.orgs@.len() == 0 && cfg.repos@.len() == 0),
            Err(e) => cfg.username is None && cfg.orgs@.len() == 0 && cfg.repos@.len() == 0
                && e@ == PollErrorView::Auth(no_sources_text()),
        },
{
    if cfg.username.is_none() && cfg.orgs.len() == 0 && cfg.repos.len() == 0 {
        return Err(PollError::Auth(String::from_str("poller has no sources: set username, orgs, or repos")));
    }
    Ok(())
}

/// The date and time of the Unix time `ts` as `chrono` writes it with
/// `%Y-%m-%d %H:%M:%S UTC`, `None` when `chrono` cannot represent it.
pub uninterp spec fn utc_stamp_text(ts: i64) -> Option<Seq<char>>;

/// Formats the Unix time `ts` with `chrono::DateTime::from_timestamp` and
/// `format("%Y-%m-%d %H:%M:%S UTC")`. The contract claims that the result
/// is what [`utc_stamp_text`] names for `ts`.
#[verifier::external_body]
fn utc_stamp(ts: i64) -> (r: Option<String>)
    ensures
        opt_view(r) == utc_stamp_text(ts),
{
    match chrono::DateTime::from_timestamp(ts, 0) {
        Some(dt) => Some(dt.format("%Y-%m-%d %H:%M:%S UTC").to_string()),
        None => None,
    }
}

/// The banner for a rate limit that resets at `ts`, given the formatted
/// time `stamp` when there is one.
pub fn reset_banner(ts: u64, stamp: Option<&str>) -> (r: String)
    ensures
        r@ == match crate::client::opt_str(stamp) {
            Some(s) => "rate-limited until "@ + s,
            None => "rate-limited until epoch "@ + decimal(ts as nat),
        },
{
    match stamp {
        Some(s) => String::from_str("rate-limited until ").concat(s),
        None => String::from_str("rate-limited until epoch ").concat(u64_to_decimal(ts).as_str()),
    }
}

/// The banner text of a rate-limit error.
pub open spec fn rate_limit_text(reset_at: Option<u64>) -> Seq<char> {
    match reset_at {
        Some(ts) => match utc_stamp_text(ts as i64) {
            Some(s) => "rate-limited until "@ + s,
            None => "rate-limited until epoch "@ + decimal(ts as nat),
        },
        None => "rate-limited by GitHub"@,
    }
}

/// Format a `RateLimited` error for the user-facing status banner.
/// When the server supplied a reset time, the banner shows
/// `rate-limited until <YYYY-MM-DD HH:MM:SS UTC>` so the user knows when
/// polling will resume. Without a reset time, the banner falls back to
/// the generic "rate-limited by GitHub". Any other error gives its own
/// message.
pub fn rate_limit_banner(err: &ClientError) -> (r: String)
    ensures
        err@ matches ClientErrorView::RateLimited { reset_at } ==> r@ == rate_limit_text(reset_at),
        err@ is Http ==> "HTTP error: "@.is_prefix_of(r@),
        !(err@ is Http) && !(err@ is RateLimited) ==> r@ == client_error_text(err@),
{
    match err {
        ClientError::RateLimited { reset_at: Some(ts) } => {
            #[verifier::truncate]
            let t = *ts as i64;
            let stamp = utc_stamp(t);
            match stamp {
                Some(s) => reset_banner(*ts, Some(s.as_str())),
                None => reset_banner(*ts, None),
            }
        },
        ClientError::RateLimited { reset_at: None } => String::from_str("rate-limited by GitHub"),
        other => other.message(),
    }
}


/// What `poll_error_text` gives for an error: an auth error's own message,
/// a rate limit's banner, the full message of any other error (of which,
/// for a transport error, only the prefix is known).
pub open spec fn error_text_ok(e: PollErrorView, t: Seq<char>) -> bool {
    match e {
        PollErrorView::Client(ClientErrorView::Unauthorized(m)) => t == m,
        PollErrorView::Client(ClientErrorView::RateLimited { reset_at }) => t == rate_limit_text(reset_at),
        PollErrorView::Client(ClientErrorView::Http) => ("client error: "@ + "HTTP error: "@).is_prefix_of(t),
        PollErrorView::Client(c) => t == "client error: "@ + client_error_text(c),
        PollErrorView::Auth(s) => t == "auth error: "@ + s,
    }
}

/// The banner text of one source's error: an auth error's own message, a
/// rate limit's banner, and any other error's full message.
pub fn poll_error_text(err: &PollError) -> (r: String)
    ensures
        error_text_ok(err@, r@),
{
    match err {
        PollError::Client(ClientError::Unauthorized(msg)) => msg.clone(),
        PollError::Client(c) => {
            match c {
                ClientError::RateLimited { .. } => rate_limit_banner(c),
                _ => err.message(),
            }
        },
        _ => err.message(),
    }
}

/// Per-source outcome of a single poll cycle.
#[derive(Debug)]
pub struct PollSourceOutcome {
    pub source: String,
    pub events: Vec<RawEvent>,
    pub errors: Vec<PollError>,
}

/// The value of a [`PollSourceOutcome`].
pub struct SourceOutcomeView {
    pub source: Seq<char>,
    pub events: Seq<crate::events::EventView>,
    pub errors: Seq<PollErrorView>,
}

impl View for PollSourceOutcome {
    type V = SourceOutcomeView;

    open spec fn view(&self) -> SourceOutcomeView {
        SourceOutcomeView {
            source: self.source@,
            events: crate::order::vals(self.events@),
            errors: crate::order::vals(self.errors@),
        }
    }
}

impl Default for PollSourceOutcome {
    fn default() -> (r: Self)
        ensures
            r.source@.len() == 0,
            r.events@.len() == 0,
            r.errors@.len() == 0,
    {
        PollSourceOutcome { source: String::new(), events: Vec::new(), errors: Vec::new() }
    }
}

/// The result of a single poll cycle: per-source outcomes. A source that
/// succeeded will have an empty `errors` vec; a source that failed will
/// have at least one entry in `errors` and an empty `events` vec.
#[derive(Debug)]
pub struct PollOutcome {
    pub sources: Vec<PollSourceOutcome>,
}

impl Default for PollOutcome {
    fn default() -> (r: Self)
        ensures
            r.sources@.len() == 0,
    {
        PollOutcome { sources: Vec::new() }
    }
}

/// The number of events across `srcs`.
pub open spec fn events_total(srcs: Seq<SourceOutcomeView>) -> nat
    decreases srcs.len(),
{
    if srcs.len() == 0 {
        0
    } else {
        events_total(srcs.drop_last()) + srcs.last().events.len()
    }
}

/// The number of errors across `srcs`.
pub open spec fn errors_total(srcs: Seq<SourceOutcomeView>) -> nat
    decreases srcs.len(),
{
    if srcs.len() == 0 {
        0
    } else {
        errors_total(srcs.drop_last()) + srcs.last().errors.len()
    }
}

proof fn lemma_totals_grow(srcs: Seq<SourceOutcomeView>, i: int)
    requires
        0 <= i <= srcs.len(),
    ensures
        events_total(srcs.take(i)) <= events_total(srcs),
        errors_total(srcs.take(i)) <= errors_total(srcs),
    decreases srcs.len() - i,
{
    if i < srcs.len() {
        lemma_totals_grow(srcs, i + 1);
        assert(srcs.take(i + 1).drop_last() =~= srcs.take(i));
    } else {
        assert(srcs.take(i) =~= srcs);
    }
}

impl PollOutcome {
    /// Total events across all sources.
    pub fn total_events(&self) -> (r: usize)
        requires
            events_total(crate::order::vals(self.sources@)) <= usize::MAX,
        ensures
            r == events_total(crate::order::vals(self.sources@)),
    {
        let ghost srcs = crate::order::vals(self.sources@);
        let n = self.sources.len();
        let mut total: usize = 0;
        let mut i: usize = 0;
        while i < n
            invariant
                n == self.sources@.len(),
                srcs == crate::order::vals(self.sources@),
                events_total(srcs) <= usize::MAX,
                i <= n,
                total == events_total(srcs.take(i as int)),
            decreases n - i,
        {
            assert(srcs.take(i + 1).drop_last() =~= srcs.take(i as int));
            assert(srcs.take(i + 1).last() == self.sources@[i as int]@);
            proof {
                lemma_totals_grow(srcs, i + 1);
            }
            total = total + self.sources[i].events.len();
            i = i + 1;
        }
        assert(srcs.take(n as int) =~= srcs);
        total
    }

    /// Total errors across all sources.
    pub fn total_errors(&self) -> (r: usize)
        requires
            errors_total(crate::order::vals(self.sources@)) <= usize::MAX,
        ensures
            r == errors_total(crate::order::vals(self.sources@)),
    {
        let ghost srcs = crate::order::vals(self.sources@);
        let n = self.sources.len();
        let mut total: usize = 0;
        let mut i: usize = 0;
        while i < n
            invariant
                n == self.sources@.len(),
                srcs == crate::order::vals(self.sources@),
                errors_total(srcs) <= usize::MAX,
                i <= n,
                total == errors_total(srcs.take(i as int)),
            decreases n - i,
        {
            assert(srcs.take(i + 1).drop_last() =~= srcs.take(i as int));
            assert(srcs.take(i + 1).last() == self.sources@[i as int]@);
            proof {
                lemma_totals_grow(srcs, i + 1);
            }
            total = total + self.sources[i].errors.len();
            i = i + 1;
        }
        assert(srcs.take(n as int) =~= srcs);
        total
    }
}

/// One item emitted by the poller per poll cycle, carrying events from
/// every source (in poll order, a source with no events included) plus
/// the text of each per-source error.
#[derive(Debug)]
pub enum PollItem {
    Cycle { events: Vec<(String, Vec<RawEvent>)>, errors: Vec<(String, String)> },
}

/// Each source's errors, labelled with the source, in order.
pub open spec fn labelled_errors(srcs: Seq<SourceOutcomeView>) -> Seq<(Seq<char>, PollErrorView)>
    decreases srcs.len(),
{
    if srcs.len() == 0 {
        Seq::empty()
    } else {
        labelled_errors(srcs.drop_last()) + srcs.last().errors.map_values(
            |e: PollErrorView| (srcs.last().source, e),
        )
    }
}

/// `out` holds, entry by entry, the labels of `spec` and texts that
/// `error_text_ok` allows for its errors.
pub open spec fn texts_match(out: Seq<(String, String)>, spec: Seq<(Seq<char>, PollErrorView)>) -> bool {
    &&& out.len() == spec.len()
    &&& forall|k: int| 0 <= k < out.len() ==> (#[trigger] out[k]).0@ == spec[k].0 && error_text_ok(spec[k].1, out[k].1@)
}

/// Each source with its events, in poll order.
pub open spec fn source_events(srcs: Seq<SourceOutcomeView>) -> Seq<(Seq<char>, Seq<crate::events::EventView>)> {
    srcs.map_values(|s: SourceOutcomeView| (s.source, s.events))
}

/// The events entries of a cycle item, as values.
pub open spec fn entries_view(es: Seq<(String, Vec<RawEvent>)>) -> Seq<(Seq<char>, Seq<crate::events::EventView>)> {
    es.map_values(|e: (String, Vec<RawEvent>)| (e.0@, crate::order::vals(e.1@)))
}

/// Turn a cycle's outcome into the item the poller emits, and whether any
/// source failed (the loop then backs off before the next tick).
pub fn cycle_item(outcome: PollOutcome) -> (r: (PollItem, bool))
    ensures
        r.0 matches PollItem::Cycle { events, errors } && entries_view(events@) == source_events(
            crate::order::vals(outcome.sources@),
        ) && texts_match(errors@, labelled_errors(crate::order::vals(outcome.sources@))),
        r.1 == (labelled_errors(crate::order::vals(outcome.sources@)).len() > 0),
{
    let ghost srcs = crate::order::vals(outcome.sources@);
    let mut rest = outcome.sources;
    let n = rest.len();
    let mut events_out: Vec<(String, Vec<RawEvent>)> = Vec::new();
    let mut errors_out: Vec<(String, String)> = Vec::new();
    let mut i: usize = 0;
    assert(srcs.take(0) =~= Seq::<SourceOutcomeView>::empty());
    while i < n
        invariant
            n == srcs.len(),
            i <= n,
            rest@.len() == n - i,
            forall|t: int| 0 <= t < n - i ==> #[trigger] rest@[t]@ == srcs[i + t],
            entries_view(events_out@) == source_events(srcs.take(i as int)),
            texts_match(errors_out@, labelled_errors(srcs.take(i as int))),
        decreases n - i,
    {
        assert(rest@[0]@ == srcs[i + 0]);
        let ghost old_rest = rest@;
        let src = rest.remove(0);
        assert forall|t: int| 0 <= t < n - (i + 1) implies #[trigger] rest@[t]@ == srcs[(i + 1) + t] by {
            assert(rest@[t] == old_rest[t + 1]);
            assert(old_rest[t + 1]@ == srcs[i + (t + 1)]);
        }
        let ghost sv = src@;
        assert(srcs.take(i + 1).drop_last() =~= srcs.take(i as int));
        assert(srcs.take(i + 1).last() == sv);
        let ghost before_err = errors_out@;
        let m = src.errors.len();
        let mut j: usize = 0;
        while j < m
            invariant
                m == src.errors@.len(),
                sv == src@,
                j <= m,
                errors_out@.len() == before_err.len() + j,
                forall|k: int| 0 <= k < before_err.len() ==> errors_out@[k] == before_err[k],
                forall|k: int| 0 <= k < j ==> (#[trigger] errors_out@[before_err.len() + k]).0@ == sv.source
                    && error_text_ok(sv.errors[k], errors_out@[before_err.len() + k].1@),
            decreases m - j,
        {
            let text = poll_error_text(&src.errors[j]);
            assert(sv.errors[j as int] == src.errors@[j as int]@);
            errors_out.push((src.source.clone(), text));
            j = j + 1;
        }
        let ghost added = sv.errors.map_values(|e: PollErrorView| (sv.source, e));
        assert(labelled_errors(srcs.take(i + 1)) == labelled_errors(srcs.take(i as int)) + added);
        assert forall|k: int| 0 <= k < errors_out@.len() implies (#[trigger] errors_out@[k]).0@
            == (labelled_errors(srcs.take(i as int)) + added)[k].0 && error_text_ok(
            (labelled_errors(srcs.take(i as int)) + added)[k].1,
            errors_out@[k].1@,
        ) by {
            let l = labelled_errors(srcs.take(i as int));
            assert(before_err.len() == l.len());
            if k >= before_err.len() {
                let t = k - before_err.len();
                assert(errors_out@[before_err.len() + t] == errors_out@[k]);
                assert((l + added)[k] == added[t]);
                assert(added[t] == (sv.source, sv.errors[t]));
            } else {
                assert((l + added)[k] == l[k]);
                assert(errors_out@[k] == before_err[k]);
            }
        }
        let ghost before_ev = events_out@;
        events_out.push((src.source, src.events));
        assert(entries_view(events_out@) =~= entries_view(before_ev).push((sv.source, sv.events)));
        assert(source_events(srcs.take(i + 1)) =~= source_events(srcs.take(i as int)).push((sv.source, sv.events)));
        i = i + 1;
    }
    assert(srcs.take(n as int) =~= srcs);
    let had_error = errors_out.len() > 0;
    (PollItem::Cycle { events: events_out, errors: errors_out }, had_error)
}

proof fn lemma_repo_targets_all(repos: Seq<Seq<char>>)
    requires
        crate::config::first_bad_repo(repos) < 0,
    ensures
        repo_targets(repos).len() == repos.len(),
    decreases repos.len(),
{
    if repos.len() > 0 {
        let d = repos.drop_last();
        assert(crate::config::first_bad_repo(d) < 0);
        lemma_repo_targets_all(d);
    }
}

/// Law: a config that validates loses no source to the poll plan: every
/// org and every repo is polled (after the user's feed when a username is
/// set), so the labels and the requests cover the whole config.
pub proof fn law_valid_config_polls_every_source(c: crate::config::ConfigView)
    requires
        crate::config::config_problem(c) is None,
    ensures
        poll_plan(c.username, c.orgs, c.repos).len() == (if c.username is Some { 1int } else { 0int }) + c.orgs.len()
            + c.repos.len(),
        labels(poll_plan(c.username, c.orgs, c.repos)).len() == poll_plan(c.username, c.orgs, c.repos).len(),
{
    lemma_repo_targets_all(c.repos);
}

/// What the overlay does about polling at start-up.
#[derive(Debug)]
pub enum PollerPlan {
    /// No token is set: do not poll.
    Skip,
    /// The config does not validate: show this message, do not poll.
    Invalid(String),
    /// Poll with this token and this configuration.
    Start(crate::auth::Auth, PollConfig),
}

/// The poll configuration of the config `c`.
pub open spec fn poll_config_of(c: crate::config::ConfigView, p: PollConfig) -> bool {
    &&& opt_view(p.username) == c.username
    &&& views(p.orgs@) == c.orgs
    &&& views(p.repos@) == c.repos
    &&& p.interval_secs == c.poll_interval_secs
}

/// Decide whether and how to poll for the config `config`: not at all
/// without a token; with the validation message when the config is
/// invalid; else with the token and the config's sources and interval.
pub fn plan_poller(config: &crate::config::Config) -> (r: PollerPlan)
    ensures
        crate::text::is_blank(config@.pat) ==> r is Skip,
        !crate::text::is_blank(config@.pat) ==> match crate::config::config_problem(config@) {
            Some(m) => r matches PollerPlan::Invalid(msg) && msg@ == m,
            None => r matches PollerPlan::Start(auth, p) && auth.pat@ == config@.pat && poll_config_of(config@, p),
        },
{
    let auth = match crate::auth::Auth::new(config.pat.as_str()) {
        Ok(a) => a,
        Err(_) => return PollerPlan::Skip,
    };
    match config.validate() {
        Err(m) => PollerPlan::Invalid(m),
        Ok(()) => {
            let p = PollConfig {
                username: crate::events::copy_opt(&config.username),
                orgs: crate::text::copy_strings(&config.orgs),
                repos: crate::text::copy_strings(&config.repos),
                interval_secs: config.poll_interval_secs,
            };
            PollerPlan::Start(auth, p)
        },
    }
}

} // verus!
