//! GitHub event kinds and the normalized event record.
use vstd::prelude::*;
use crate::order::{TimeKey, vals};
use crate::json::{JsonValue, member, text, flag, field, text_of, flag_of, deref_opt, str_opt, parse_json_array, json_array_of, json_error_text};
use crate::text::{str_eq, i64_to_decimal, signed_decimal};
use crate::time::{instant, instant_of};

verus! {

/// The five event kinds the timeline surfaces.
#[derive(Debug, Clone, Copy, PartialEq, Eq, PartialOrd, Ord, Hash, Structural)]
pub enum EventKind {
    /// A pull request was opened.
    PrOpened,
    /// A pull request was merged.
    PrMerged,
    /// An issue was opened.
    IssueOpened,
    /// A release was published.
    ReleasePublished,
    /// A new repository was created.
    RepoCreated,
}

/// Whether events of kind `k` are rare and important and never compressed.
pub open spec fn standalone_kind(k: EventKind) -> bool {
    k == EventKind::RepoCreated
}

/// The variant name of a kind, as `{:?}` writes it.
pub open spec fn kind_name(k: EventKind) -> Seq<char> {
    match k {
        EventKind::PrOpened => seq!['P', 'r', 'O', 'p', 'e', 'n', 'e', 'd'],
        EventKind::PrMerged => seq!['P', 'r', 'M', 'e', 'r', 'g', 'e', 'd'],
        EventKind::IssueOpened => seq!['I', 's', 's', 'u', 'e', 'O', 'p', 'e', 'n', 'e', 'd'],
        EventKind::ReleasePublished => seq![
            'R', 'e', 'l', 'e', 'a', 's', 'e', 'P', 'u', 'b', 'l', 'i', 's', 'h', 'e', 'd'
        ],
        EventKind::RepoCreated => seq!['R', 'e', 'p', 'o', 'C', 'r', 'e', 'a', 't', 'e', 'd'],
    }
}

/// The kinds in their declared order (the order of `Ord`).
pub open spec fn all_kinds() -> Seq<EventKind> {
    seq![
        EventKind::PrOpened,
        EventKind::PrMerged,
        EventKind::IssueOpened,
        EventKind::ReleasePublished,
        EventKind::RepoCreated
    ]
}

impl EventKind {
    /// Whether this event is rare and important and should never be
    /// compressed into a (type, count) pair.
    pub fn is_standalone(&self) -> (r: bool)
        ensures
            r == standalone_kind(*self),
    {
        match self {
            EventKind::RepoCreated => true,
            _ => false,
        }
    }

    /// The variant name, e.g. `"PrOpened"`.
    pub fn name(&self) -> (r: &'static str)
        ensures
            r@ == kind_name(*self),
    {
        proof {
            reveal_strlit("PrOpened");
            reveal_strlit("PrMerged");
            reveal_strlit("IssueOpened");
            reveal_strlit("ReleasePublished");
            reveal_strlit("RepoCreated");
        }
        match self {
            EventKind::PrOpened => "PrOpened",
            EventKind::PrMerged => "PrMerged",
            EventKind::IssueOpened => "IssueOpened",
            EventKind::ReleasePublished => "ReleasePublished",
            EventKind::RepoCreated => "RepoCreated",
        }
    }
}

/// A GitHub event, normalized to the five kinds the timeline shows.
#[derive(Debug, Clone, PartialEq, Eq)]
pub struct RawEvent {
    /// GitHub's global event id (string, may be numeric).
    pub id: String,
    /// Event kind.
    pub kind: EventKind,
    /// "owner/name"
    pub repo_full_name: String,
    /// When the event was created, as an instant (see `time`).
    pub created_at: i128,
    /// Optional title (PR title, issue title, release tag/name).
    pub title: Option<String>,
    /// Optional URL of the event in the GitHub web UI, as a parsed URL
    /// serializes.
    pub url: Option<String>,
}

/// The value of a [`RawEvent`].
pub struct EventView {
    pub id: Seq<char>,
    pub kind: EventKind,
    pub repo: Seq<char>,
    pub created_at: int,
    pub title: Option<Seq<char>>,
    pub url: Option<Seq<char>>,
}

/// The characters of an optional string.
pub open spec fn opt_view(o: Option<String>) -> Option<Seq<char>> {
    match o {
        Some(s) => Some(s@),
        None => None,
    }
}

/// A copy of an optional string.
pub fn copy_opt(o: &Option<String>) -> (r: Option<String>)
    ensures
        opt_view(r) == opt_view(*o),
{
    match o {
        Some(s) => Some(s.clone()),
        None => None,
    }
}

impl View for RawEvent {
    type V = EventView;

    open spec fn view(&self) -> EventView {
        EventView {
            id: self.id@,
            kind: self.kind,
            repo: self.repo_full_name@,
            created_at: self.created_at as int,
            title: opt_view(self.title),
            url: opt_view(self.url),
        }
    }
}

impl TimeKey for RawEvent {
    open spec fn key(v: EventView) -> int {
        v.created_at
    }

    fn time_key(&self) -> (t: i128) {
        self.created_at
    }
}

impl RawEvent {
    /// The "owner/name" of the repo.
    pub fn repo_full_name(&self) -> (r: String)
        ensures
            r@ == self.repo_full_name@,
    {
        self.repo_full_name.clone()
    }

    /// An event for tests and seed data: no title, no URL, and an id made
    /// of `test-` and the wall clock in nanoseconds.
    pub fn for_test(repo_full_name: String, kind: EventKind, created_at: i128) -> (r: RawEvent)
        ensures
            r.repo_full_name@ == repo_full_name@,
            r.kind == kind,
            r.created_at == created_at,
            r.title is None,
            r.url is None,
            exists|n: int| r.id@ == "test-"@ + #[trigger] signed_decimal(n),
    {
        let nanos = clock_nanos();
        let digits = i64_to_decimal(nanos);
        let id = String::from_str("test-").concat(digits.as_str());
        assert(id@ == "test-"@ + signed_decimal(nanos as int));
        RawEvent { id, kind, repo_full_name, created_at, title: None, url: None }
    }

    /// A copy of this event with the same value.
    pub fn copy(&self) -> (r: RawEvent)
        ensures
            r@ == self@,
    {
        RawEvent {
            id: self.id.clone(),
            kind: self.kind,
            repo_full_name: self.repo_full_name.clone(),
            created_at: self.created_at,
            title: copy_opt(&self.title),
            url: copy_opt(&self.url),
        }
    }
}

/// Errors from parsing GitHub events.
#[derive(Debug)]
pub enum ParseError {
    /// The body is no JSON array.
    Json(serde_json::Error),
    /// A required field is absent or of the wrong type.
    MissingField(String),
    /// An event type the timeline does not show.
    UnsupportedEvent(String),
    /// A supported event type with an action the timeline does not show.
    UnsupportedAction(String),
}

/// The value of a [`ParseError`].
pub enum ParseErrorView {
    Json,
    MissingField(Seq<char>),
    UnsupportedEvent(Seq<char>),
    UnsupportedAction(Seq<char>),
}

impl View for ParseError {
    type V = ParseErrorView;

    open spec fn view(&self) -> ParseErrorView {
        match self {
            ParseError::Json(_) => ParseErrorView::Json,
            ParseError::MissingField(s) => ParseErrorView::MissingField(s@),
            ParseError::UnsupportedEvent(s) => ParseErrorView::UnsupportedEvent(s@),
            ParseError::UnsupportedAction(s) => ParseErrorView::UnsupportedAction(s@),
        }
    }
}

/// The message of a parse error other than a JSON error.
pub open spec fn parse_error_text(e: ParseErrorView) -> Seq<char> {
    match e {
        ParseErrorView::Json => "JSON error: "@,
        ParseErrorView::MissingField(f) => "missing required field: "@ + f,
        ParseErrorView::UnsupportedEvent(t) => "unsupported event type: "@ + t,
        ParseErrorView::UnsupportedAction(a) => "unsupported action: "@ + a,
    }
}

impl ParseError {
    /// The error's message, as its `Display` writes it: for a JSON error,
    /// `JSON error: ` and `serde_json`'s own message.
    pub fn message(&self) -> (r: String)
        ensures
            self@ is Json ==> "JSON error: "@.is_prefix_of(r@),
            !(self@ is Json) ==> r@ == parse_error_text(self@),
    {
        match self {
            ParseError::Json(e) => {
                let t = json_error_text(e);
                let r = String::from_str("JSON error: ").concat(t.as_str());
                assert("JSON error: "@.is_prefix_of(r@)) by {
                    assert(r@.subrange(0, "JSON error: "@.len() as int) =~= "JSON error: "@);
                }
                r
            },
            ParseError::MissingField(f) => String::from_str("missing required field: ").concat(f.as_str()),
            ParseError::UnsupportedEvent(t) => String::from_str("unsupported event type: ").concat(t.as_str()),
            ParseError::UnsupportedAction(a) => String::from_str("unsupported action: ").concat(a.as_str()),
        }
    }

    /// Whether this error only says that an event is of a type or action
    /// the timeline does not show.
    pub fn is_unsupported(&self) -> (r: bool)
        ensures
            r == (self@ is UnsupportedEvent || self@ is UnsupportedAction),
    {
        match self {
            ParseError::UnsupportedEvent(_) => true,
            ParseError::UnsupportedAction(_) => true,
            _ => false,
        }
    }
}

/// The wall clock in nanoseconds since the Unix epoch, as
/// `chrono::Utc::now().timestamp_nanos_opt()` gives it (0 when out of
/// range). Nothing is claimed of the value: it is the time.
#[verifier::external_body]
fn clock_nanos() -> i64 {
    chrono::Utc::now().timestamp_nanos_opt().unwrap_or(0)
}

/// The instant of an RFC 3339 timestamp as `chrono` parses it, as its
/// Unix second and the nanoseconds after it; `None` when `chrono` rejects
/// the text.
pub uninterp spec fn rfc3339_parts(s: Seq<char>) -> Option<(i64, u32)>;

/// Parses `s` with `chrono::DateTime::parse_from_rfc3339` and takes the
/// instant's `timestamp()` and `timestamp_subsec_nanos()`. The contract
/// claims that the result is what [`rfc3339_parts`] names for `s`.
#[verifier::external_body]
fn parse_rfc3339(s: &str) -> (r: Option<(i64, u32)>)
    ensures
        r == rfc3339_parts(s@),
{
    match chrono::DateTime::parse_from_rfc3339(s) {
        Ok(d) => Some((d.timestamp(), d.timestamp_subsec_nanos())),
        Err(_) => None,
    }
}

/// The serialization of `s` parsed as a URL by `url::Url::parse`, `None`
/// when the `url` crate rejects it.
pub uninterp spec fn url_text(s: Seq<char>) -> Option<Seq<char>>;

/// Parses `s` with `url::Url::parse` and writes the URL back as text. The
/// contract claims that the result is what [`url_text`] names for `s`.
#[verifier::external_body]
pub(crate) fn parse_url(s: &str) -> (r: Option<String>)
    ensures
        opt_view(r) == url_text(s@),
{
    match url::Url::parse(s) {
        Ok(u) => Some(u.to_string()),
        Err(_) => None,
    }
}

/// The text of an event id: a JSON string, or a number as written.
pub open spec fn id_text(v: Option<JsonValue>) -> Option<Seq<char>> {
    match v {
        Some(JsonValue::Str(s)) => Some(s@),
        Some(JsonValue::Number(n)) => Some(n@),
        _ => None,
    }
}

/// `s`, or the empty text for none.
pub open spec fn or_empty(o: Option<Seq<char>>) -> Seq<char> {
    match o {
        Some(s) => s,
        None => Seq::empty(),
    }
}

/// The URL of the optional text `o`, when it parses as one.
pub open spec fn url_of(o: Option<Seq<char>>) -> Option<Seq<char>> {
    match o {
        Some(s) => url_text(s),
        None => None,
    }
}

/// The instant of the optional timestamp text `o`,
/// when it parses.
pub open spec fn instant_of_text(o: Option<Seq<char>>) -> Option<int> {
    match o {
        Some(s) => match rfc3339_parts(s) {
            Some(p) => Some(instant(p.0 as int, p.1 as int)),
            None => None,
        },
        None => None,
    }
}

/// Kind, title and URL of an event of type `ty` with payload `payload`,
/// or why it is not shown.
pub open spec fn classify(ty: Seq<char>, payload: Option<JsonValue>) -> Result<
    (EventKind, Option<Seq<char>>, Option<Seq<char>>),
    ParseErrorView,
> {
    let action = or_empty(text_of(field(payload, "action"@)));
    if ty == "PullRequestEvent"@ {
        let pr = field(payload, "pull_request"@);
        let title = text_of(field(pr, "title"@));
        let url = url_of(text_of(field(pr, "html_url"@)));
        if action == "opened"@ {
            Ok((EventKind::PrOpened, title, url))
        } else if action == "closed"@ && flag_of(field(pr, "merged"@)) == Some(true) {
            Ok((EventKind::PrMerged, title, url))
        } else {
            Err(ParseErrorView::UnsupportedAction("PullRequestEvent:"@ + action))
        }
    } else if ty == "IssuesEvent"@ {
        let issue = field(payload, "issue"@);
        if action == "opened"@ {
            Ok((EventKind::IssueOpened, text_of(field(issue, "title"@)), url_of(text_of(field(issue, "html_url"@)))))
        } else {
            Err(ParseErrorView::UnsupportedAction("IssuesEvent:"@ + action))
        }
    } else if ty == "ReleaseEvent"@ {
        let rel = field(payload, "release"@);
        let title = match text_of(field(rel, "name"@)) {
            Some(t) => Some(t),
            None => text_of(field(rel, "tag_name"@)),
        };
        if action == "published"@ {
            Ok((EventKind::ReleasePublished, title, url_of(text_of(field(rel, "html_url"@)))))
        } else {
            Err(ParseErrorView::UnsupportedAction("ReleaseEvent:"@ + action))
        }
    } else if ty == "CreateEvent"@ {
        let ref_type = or_empty(text_of(field(payload, "ref_type"@)));
        if ref_type == "repository"@ {
            Ok((EventKind::RepoCreated, None, None))
        } else {
            Err(ParseErrorView::UnsupportedAction("CreateEvent:"@ + ref_type))
        }
    } else {
        Err(ParseErrorView::UnsupportedEvent(ty))
    }
}

/// What `parse_event` makes of `v`: the event, or the first of these that
/// fails: the id, the type, the creation time, the repo name, the kind.
pub open spec fn event_parse(v: JsonValue) -> Result<EventView, ParseErrorView> {
    let root = Some(v);
    match id_text(field(root, "id"@)) {
        None => Err(ParseErrorView::MissingField("id"@)),
        Some(id) => match text_of(field(root, "type"@)) {
            None => Err(ParseErrorView::MissingField("type"@)),
            Some(ty) => match instant_of_text(text_of(field(root, "created_at"@))) {
                None => Err(ParseErrorView::MissingField("created_at"@)),
                Some(t) => match text_of(field(field(root, "repo"@), "name"@)) {
                    None => Err(ParseErrorView::MissingField("repo.name"@)),
                    Some(repo) => match classify(ty, field(root, "payload"@)) {
                        Err(e) => Err(e),
                        Ok(c) => Ok(
                            EventView { id: id, kind: c.0, repo: repo, created_at: t, title: c.1, url: c.2 },
                        ),
                    },
                },
            },
        },
    }
}

/// What `parse_events` makes of the values `vs`: the events in order,
/// skipping those of unsupported types or actions, or the first other
/// error.
pub open spec fn events_parse(vs: Seq<JsonValue>) -> Result<Seq<EventView>, ParseErrorView>
    decreases vs.len(),
{
    if vs.len() == 0 {
        Ok(Seq::empty())
    } else {
        match events_parse(vs.drop_last()) {
            Err(e) => Err(e),
            Ok(evs) => match event_parse(vs.last()) {
                Ok(e) => Ok(evs.push(e)),
                Err(ParseErrorView::UnsupportedEvent(_)) => Ok(evs),
                Err(ParseErrorView::UnsupportedAction(_)) => Ok(evs),
                Err(e) => Err(e),
            },
        }
    }
}

fn owned_opt(o: Option<&str>) -> (r: Option<String>)
    ensures
        opt_view(r) == str_opt(o),
{
    match o {
        Some(s) => Some(String::from_str(s)),
        None => None,
    }
}

fn url_opt(o: Option<&str>) -> (r: Option<String>)
    ensures
        opt_view(r) == url_of(str_opt(o)),
{
    match o {
        Some(s) => parse_url(s),
        None => None,
    }
}

fn action_text(o: Option<&str>) -> (r: String)
    ensures
        r@ == or_empty(str_opt(o)),
{
    match o {
        Some(s) => String::from_str(s),
        None => String::new(),
    }
}

fn classify_event(ty: &str, payload: Option<&JsonValue>) -> (r: Result<(EventKind, Option<String>, Option<String>), ParseError>)
    ensures
        match r {
            Ok(c) => classify(ty@, deref_opt(payload)) == Ok::<(EventKind, Option<Seq<char>>, Option<Seq<char>>), ParseErrorView>((c.0, opt_view(c.1), opt_view(c.2))),
            Err(e) => classify(ty@, deref_opt(payload)) == Err::<(EventKind, Option<Seq<char>>, Option<Seq<char>>), ParseErrorView>(e@),
        },
{
    let action = action_text(text(member(payload, "action")));
    if str_eq(ty, "PullRequestEvent") {
        let pr = member(payload, "pull_request");
        let title = owned_opt(text(member(pr, "title")));
        let url = url_opt(text(member(pr, "html_url")));
        if str_eq(action.as_str(), "opened") {
            Ok((EventKind::PrOpened, title, url))
        } else if str_eq(action.as_str(), "closed") && flag(member(pr, "merged")) == Some(true) {
            Ok((EventKind::PrMerged, title, url))
        } else {
            Err(ParseError::UnsupportedAction(String::from_str("PullRequestEvent:").concat(action.as_str())))
        }
    } else if str_eq(ty, "IssuesEvent") {
        let issue = member(payload, "issue");
        if str_eq(action.as_str(), "opened") {
            let title = owned_opt(text(member(issue, "title")));
            let url = url_opt(text(member(issue, "html_url")));
            Ok((EventKind::IssueOpened, title, url))
        } else {
            Err(ParseError::UnsupportedAction(String::from_str("IssuesEvent:").concat(action.as_str())))
        }
    } else if str_eq(ty, "ReleaseEvent") {
        let rel = member(payload, "release");
        let title = match text(member(rel, "name")) {
            Some(t) => Some(String::from_str(t)),
            None => owned_opt(text(member(rel, "tag_name"))),
        };
        if str_eq(action.as_str(), "published") {
            let url = url_opt(text(member(rel, "html_url")));
            Ok((EventKind::ReleasePublished, title, url))
        } else {
            Err(ParseError::UnsupportedAction(String::from_str("ReleaseEvent:").concat(action.as_str())))
        }
    } else if str_eq(ty, "CreateEvent") {
        let ref_type = action_text(text(member(payload, "ref_type")));
        if str_eq(ref_type.as_str(), "repository") {
            Ok((EventKind::RepoCreated, None, None))
        } else {
            Err(ParseError::UnsupportedAction(String::from_str("CreateEvent:").concat(ref_type.as_str())))
        }
    } else {
        Err(ParseError::UnsupportedEvent(String::from_str(ty)))
    }
}

fn id_string(v: Option<&JsonValue>) -> (r: Option<String>)
    ensures
        opt_view(r) == id_text(deref_opt(v)),
{
    match v {
        Some(JsonValue::Str(s)) => Some(s.clone()),
        Some(JsonValue::Number(n)) => Some(n.clone()),
        _ => None,
    }
}

fn event_from(value: &JsonValue) -> (r: Result<RawEvent, ParseError>)
    ensures
        match r {
            Ok(e) => event_parse(*value) == Ok::<EventView, ParseErrorView>(e@),
            Err(err) => event_parse(*value) == Err::<EventView, ParseErrorView>(err@),
        },
{
    let root = Some(value);
    assert(deref_opt(root) == Some(*value));
    let id = match id_string(member(root, "id")) {
        Some(id) => id,
        None => return Err(ParseError::MissingField(String::from_str("id"))),
    };
    let ty = match text(member(root, "type")) {
        Some(t) => t,
        None => return Err(ParseError::MissingField(String::from_str("type"))),
    };
    let created_at = match text(member(root, "created_at")) {
        Some(s) => match parse_rfc3339(s) {
            Some((secs, nanos)) => instant_of(secs, nanos),
            None => return Err(ParseError::MissingField(String::from_str("created_at"))),
        },
        None => return Err(ParseError::MissingField(String::from_str("created_at"))),
    };
    let repo_full_name = match text(member(member(root, "repo"), "name")) {
        Some(s) => String::from_str(s),
        None => return Err(ParseError::MissingField(String::from_str("repo.name"))),
    };
    let (kind, title, url) = match classify_event(ty, member(root, "payload")) {
        Ok(c) => c,
        Err(e) => return Err(e),
    };
    Ok(RawEvent { id, kind, repo_full_name, created_at, title, url })
}

/// Parse a single GitHub event.
pub fn parse_event(value: JsonValue) -> (r: Result<RawEvent, ParseError>)
    ensures
        match r {
            Ok(e) => event_parse(value) == Ok::<EventView, ParseErrorView>(e@),
            Err(err) => event_parse(value) == Err::<EventView, ParseErrorView>(err@),
        },
{
    event_from(&value)
}

/// The events of the parsed values `values`: individual events with
/// unsupported types or actions are skipped; any other error stops the
/// walk and is returned.
pub fn events_from_values(values: &Vec<JsonValue>) -> (r: Result<Vec<RawEvent>, ParseError>)
    ensures
        match r {
            Ok(evs) => events_parse(values@) == Ok::<Seq<EventView>, ParseErrorView>(vals(evs@)),
            Err(err) => events_parse(values@) == Err::<Seq<EventView>, ParseErrorView>(err@),
        },
{
    let n = values.len();
    let mut out: Vec<RawEvent> = Vec::new();
    let mut i: usize = 0;
    assert(values@.take(0) =~= Seq::<JsonValue>::empty());
    assert(vals(out@) =~= Seq::<EventView>::empty());
    while i < n
        invariant
            n == values@.len(),
            i <= n,
            events_parse(values@.take(i as int)) == Ok::<Seq<EventView>, ParseErrorView>(vals(out@)),
        decreases n - i,
    {
        assert(values@.take(i + 1).drop_last() =~= values@.take(i as int));
        assert(values@.take(i + 1).last() == values@[i as int]);
        match event_from(&values[i]) {
            Ok(ev) => {
                let ghost before = out@;
                out.push(ev);
                assert(vals(out@) =~= vals(before).push(out@.last()@));
            },
            Err(e) => {
                if !e.is_unsupported() {
                    proof {
                        lemma_events_parse_err(values@, i as int, e@);
                    }
                    return Err(e);
                }
            },
        }
        i = i + 1;
    }
    assert(values@.take(n as int) =~= values@);
    Ok(out)
}

/// Parsing values never reports a JSON error: that comes only from the
/// body as a whole.
pub proof fn lemma_events_parse_not_json(vs: Seq<JsonValue>)
    ensures
        events_parse(vs) matches Err(e) ==> !(e is Json),
    decreases vs.len(),
{
    if vs.len() > 0 {
        lemma_events_parse_not_json(vs.drop_last());
    }
}

proof fn lemma_events_parse_err(vs: Seq<JsonValue>, i: int, e: ParseErrorView)
    requires
        0 <= i < vs.len(),
        events_parse(vs.take(i + 1)) == Err::<Seq<EventView>, ParseErrorView>(e),
    ensures
        events_parse(vs) == Err::<Seq<EventView>, ParseErrorView>(e),
    decreases vs.len(),
{
    if i + 1 == vs.len() {
        assert(vs.take(i + 1) =~= vs);
    } else {
        let d = vs.drop_last();
        assert(d.take(i + 1) =~= vs.take(i + 1));
        lemma_events_parse_err(d, i, e);
    }
}

/// Parse a list of GitHub events from a JSON body. Individual events with
/// unsupported types or actions are skipped so one PushEvent in the batch
/// doesn't drop every other event. Structural errors (bad JSON, missing
/// required fields) still propagate.
pub fn parse_events(body: &str) -> (r: Result<Vec<RawEvent>, ParseError>)
    ensures
        match json_array_of(body@) {
            None => r matches Err(e) && e@ is Json,
            Some(vs) => match r {
                Ok(evs) => events_parse(vs) == Ok::<Seq<EventView>, ParseErrorView>(vals(evs@)),
                Err(err) => events_parse(vs) == Err::<Seq<EventView>, ParseErrorView>(err@),
            },
        },
{
    match parse_json_array(body) {
        Ok(values) => events_from_values(&values),
        Err(e) => Err(ParseError::Json(e)),
    }
}


/// What an event kind says of the JSON object it was read from: its
/// `type`, and the payload's `action` (or `ref_type`, or the pull
/// request's `merged` flag).
pub open spec fn kind_evidence(v: JsonValue, k: EventKind) -> bool {
    let root = Some(v);
    let ty = text_of(field(root, "type"@));
    let payload = field(root, "payload"@);
    let action = text_of(field(payload, "action"@));
    match k {
        EventKind::PrOpened => ty == Some("PullRequestEvent"@) && action == Some("opened"@),
        EventKind::PrMerged => ty == Some("PullRequestEvent"@) && action == Some("closed"@) && flag_of(
            field(field(payload, "pull_request"@), "merged"@),
        ) == Some(true),
        EventKind::IssueOpened => ty == Some("IssuesEvent"@) && action == Some("opened"@),
        EventKind::ReleasePublished => ty == Some("ReleaseEvent"@) && action == Some("published"@),
        EventKind::RepoCreated => ty == Some("CreateEvent"@) && text_of(field(payload, "ref_type"@)) == Some(
            "repository"@,
        ),
    }
}

/// Law: a parsed event's kind is backed by the JSON it came from: a pull
/// request opened or merged (closed with `merged: true`), an issue opened,
/// a release published, or a `CreateEvent` whose `ref_type` is exactly
/// `repository`. A `CreateEvent` for anything else (a branch, a tag) is an
/// unsupported action, so the feed skips it.
pub proof fn law_kind_matches_event(v: JsonValue, payload: Option<JsonValue>)
    ensures
        event_parse(v) matches Ok(e) ==> kind_evidence(v, e.kind),
        text_of(field(payload, "ref_type"@)) != Some("repository"@) ==> classify("CreateEvent"@, payload) is Err
            && classify("CreateEvent"@, payload)->Err_0 is UnsupportedAction,
{
    reveal_strlit("opened");
    reveal_strlit("closed");
    reveal_strlit("published");
    reveal_strlit("repository");
    reveal_strlit("PullRequestEvent");
    reveal_strlit("IssuesEvent");
    reveal_strlit("ReleaseEvent");
    reveal_strlit("CreateEvent");
    assert("CreateEvent"@[0] != "PullRequestEvent"@[0]);
    assert("CreateEvent"@ != "PullRequestEvent"@);
    assert("CreateEvent"@[0] != "IssuesEvent"@[0]);
    assert("CreateEvent"@ != "IssuesEvent"@);
    assert("CreateEvent"@ != "ReleaseEvent"@);
    assert("opened"@.len() == 6);
    assert("opened"@ != Seq::<char>::empty());
    assert("closed"@.len() == 6);
    assert("closed"@ != Seq::<char>::empty());
    assert("published"@.len() == 9);
    assert("published"@ != Seq::<char>::empty());
    assert("repository"@.len() == 10);
    assert("repository"@ != Seq::<char>::empty());
    if let Ok(e) = event_parse(v) {
        let root = Some(v);
        let ty = text_of(field(root, "type"@)).unwrap();
        let pl = field(root, "payload"@);
        let action = text_of(field(pl, "action"@));
        assert(classify(ty, pl) is Ok);
        let c = classify(ty, pl)->Ok_0;
        assert(e.kind == c.0);
        if action is None {
            assert(or_empty(action) == Seq::<char>::empty());
        }
        if text_of(field(pl, "ref_type"@)) is None {
            assert(or_empty(text_of(field(pl, "ref_type"@))) == Seq::<char>::empty());
        }
    }
}

} // verus!
