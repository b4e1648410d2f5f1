//! The decisions of the HTTP client that talks to the GitHub REST API:
//! request URLs, how a response status maps to an error, and when a rate
//! limit resets. The requests themselves are made by the application.
use vstd::prelude::*;
use crate::events::{RawEvent, parse_events, events_parse, parse_error_text};
use crate::json::json_array_of;
use crate::order::vals;
use crate::text::{trim, trim_str, parse_u64, parse_u64_spec, u64_to_decimal, decimal};

verus! {

/// The error `reqwest` reports for a failed request.
#[verifier::external_type_specification]
#[verifier::external_body]
pub struct ExReqwestError(reqwest::Error);

/// The version of this crate, sent in the User-Agent header.
pub const CRATE_VERSION: &'static str = "1.0.1";

/// Configuration for the client.
#[derive(Debug, Clone, PartialEq, Eq)]
pub struct ClientConfig {
    /// API base URL. Override for GitHub Enterprise.
    pub base_url: String,
    /// User-Agent header value.
    pub user_agent: String,
    /// Request timeout in seconds.
    pub timeout_secs: u64,
}

impl Default for ClientConfig {
    fn default() -> (r: Self)
        ensures
            r.base_url@ == "https://api.github.com"@,
            r.user_agent@ == "gh-monitor/"@ + CRATE_VERSION@,
            r.timeout_secs == 30,
    {
        ClientConfig {
            base_url: String::from_str("https://api.github.com"),
            user_agent: String::from_str("gh-monitor/").concat(CRATE_VERSION),
            timeout_secs: 30,
        }
    }
}

/// Errors from the GitHub client.
#[derive(Debug)]
pub enum ClientError {
    /// The request failed in transport.
    Http(reqwest::Error),
    /// `429 Too Many Requests`. `reset_at` carries the absolute Unix
    /// epoch seconds when the rate-limit window resets, parsed from
    /// the `X-RateLimit-Reset` header (or, as a fallback, the
    /// `Retry-After` delta in seconds added to "now"). `None` means
    /// the server didn't supply either header.
    RateLimited { reset_at: Option<u64> },
    /// `401` or `403`.
    Unauthorized(String),
    /// A `5xx` status.
    Server(String),
    /// The body could not be parsed.
    Parse(String),
    /// Any other unsuccessful status.
    Events(String),
}

/// The value of a [`ClientError`].
pub enum ClientErrorView {
    Http,
    RateLimited { reset_at: Option<u64> },
    Unauthorized(Seq<char>),
    Server(Seq<char>),
    Parse(Seq<char>),
    Events(Seq<char>),
}

impl View for ClientError {
    type V = ClientErrorView;

    open spec fn view(&self) -> ClientErrorView {
        match self {
            ClientError::Http(_) => ClientErrorView::Http,
            ClientError::RateLimited { reset_at } => ClientErrorView::RateLimited { reset_at: *reset_at },
            ClientError::Unauthorized(s) => ClientErrorView::Unauthorized(s@),
            ClientError::Server(s) => ClientErrorView::Server(s@),
            ClientError::Parse(s) => ClientErrorView::Parse(s@),
            ClientError::Events(s) => ClientErrorView::Events(s@),
        }
    }
}

/// `Some(n)` or `None`, as `{:?}` writes an `Option<u64>`.
pub open spec fn debug_opt(o: Option<u64>) -> Seq<char> {
    match o {
        Some(n) => "Some("@ + decimal(n as nat) + ")"@,
        None => "None"@,
    }
}

/// The message of a client error other than a transport error.
pub open spec fn client_error_text(e: ClientErrorView) -> Seq<char> {
    match e {
        ClientErrorView::Http => "HTTP error: "@,
        ClientErrorView::RateLimited { reset_at } => "rate-limited by GitHub until "@ + debug_opt(reset_at),
        ClientErrorView::Unauthorized(s) => "auth error: "@ + s,
        ClientErrorView::Server(s) => "server error: "@ + s,
        ClientErrorView::Parse(s) => "parse error: "@ + s,
        ClientErrorView::Events(s) => "events API: "@ + s,
    }
}

/// The message `reqwest` gives for `e` (its `Display`). Nothing is claimed
/// of the text.
#[verifier::external_body]
fn http_error_text(e: &reqwest::Error) -> String {
    e.to_string()
}

impl ClientError {
    /// The error's message, as its `Display` writes it: for a transport
    /// error, `HTTP error: ` and `reqwest`'s own message.
    pub fn message(&self) -> (r: String)
        ensures
            self@ is Http ==> "HTTP error: "@.is_prefix_of(r@),
            !(self@ is Http) ==> r@ == client_error_text(self@),
    {
        match self {
            ClientError::Http(e) => {
                let t = http_error_text(e);
                let r = String::from_str("HTTP error: ").concat(t.as_str());
                assert("HTTP error: "@.is_prefix_of(r@)) by {
                    assert(r@.subrange(0, "HTTP error: "@.len() as int) =~= "HTTP error: "@);
                }
                r
            },
            ClientError::RateLimited { reset_at } => {
                let d = match reset_at {
                    Some(n) => String::from_str("Some(").concat(u64_to_decimal(*n).as_str()).concat(")"),
                    None => String::from_str("None"),
                };
                String::from_str("rate-limited by GitHub until ").concat(d.as_str())
            },
            ClientError::Unauthorized(s) => String::from_str("auth error: ").concat(s.as_str()),
            ClientError::Server(s) => String::from_str("server error: ").concat(s.as_str()),
            ClientError::Parse(s) => String::from_str("parse error: ").concat(s.as_str()),
            ClientError::Events(s) => String::from_str("events API: ").concat(s.as_str()),
        }
    }
}

/// `{base}/users/{user}/received_events`
pub fn received_events_url(base: &str, user: &str) -> (r: String)
    ensures
        r@ == base@ + "/users/"@ + user@ + "/received_events"@,
{
    String::from_str(base).concat("/users/").concat(user).concat("/received_events")
}

/// `{base}/orgs/{org}/events`
pub fn org_events_url(base: &str, org: &str) -> (r: String)
    ensures
        r@ == base@ + "/orgs/"@ + org@ + "/events"@,
{
    String::from_str(base).concat("/orgs/").concat(org).concat("/events")
}

/// `{base}/repos/{owner}/{repo}/events`
pub fn repo_events_url(base: &str, owner: &str, repo: &str) -> (r: String)
    ensures
        r@ == base@ + "/repos/"@ + owner@ + "/"@ + repo@ + "/events"@,
{
    String::from_str(base).concat("/repos/").concat(owner).concat("/").concat(repo).concat("/events")
}

/// The error a response with status `status` (written `status_text`, as
/// `StatusCode` displays it) stands for: `429` is a rate limit resetting at
/// `reset_at`; `401` and `403` are auth errors; `5xx` are server errors;
/// any other status outside `2xx` is an events-API error; `2xx` is none.
pub open spec fn status_problem(status: u16, status_text: Seq<char>, reset_at: Option<u64>) -> Option<ClientErrorView> {
    if status == 429 {
        Some(ClientErrorView::RateLimited { reset_at })
    } else if status == 401 || status == 403 {
        Some(ClientErrorView::Unauthorized(status_text))
    } else if 500 <= status <= 599 {
        Some(ClientErrorView::Server(status_text))
    } else if !(200 <= status <= 299) {
        Some(ClientErrorView::Events(status_text))
    } else {
        None
    }
}

/// The view of an optional client error.
pub open spec fn opt_error_view(e: Option<ClientError>) -> Option<ClientErrorView> {
    match e {
        Some(x) => Some(x@),
        None => None,
    }
}

/// The error a response status stands for, if any.
pub fn status_error(status: u16, status_text: &str, reset_at: Option<u64>) -> (r: Option<ClientError>)
    ensures
        opt_error_view(r) == status_problem(status, status_text@, reset_at),
{
    if status == 429 {
        Some(ClientError::RateLimited { reset_at })
    } else if status == 401 || status == 403 {
        Some(ClientError::Unauthorized(String::from_str(status_text)))
    } else if 500 <= status && status <= 599 {
        Some(ClientError::Server(String::from_str(status_text)))
    } else if !(200 <= status && status <= 299) {
        Some(ClientError::Events(String::from_str(status_text)))
    } else {
        None
    }
}

/// The events of a successful response's body; a body that does not parse
/// is a parse error carrying the parser's message.
pub fn body_events(body: &str) -> (r: Result<Vec<RawEvent>, ClientError>)
    ensures
        match json_array_of(body@) {
            None => r matches Err(e) && e@ matches ClientErrorView::Parse(m) && "JSON error: "@.is_prefix_of(m),
            Some(vs) => match events_parse(vs) {
                Ok(evs) => r matches Ok(v) && vals(v@) == evs,
                Err(pe) => r matches Err(e) && e@ == ClientErrorView::Parse(parse_error_text(pe)),
            },
        },
{
    proof {
        if let Some(vs) = json_array_of(body@) {
            crate::events::lemma_events_parse_not_json(vs);
        }
    }
    match parse_events(body) {
        Ok(evs) => Ok(evs),
        Err(e) => Err(ClientError::Parse(e.message())),
    }
}

/// When a rate limit resets, from the `X-RateLimit-Reset` header (an
/// absolute Unix time) or else the `Retry-After` header (seconds from
/// `now`, added without overflow); `None` when neither parses.
pub open spec fn reset_at_spec(x_reset: Option<Seq<char>>, retry_after: Option<Seq<char>>, now: u64) -> Option<u64> {
    let from_x = match x_reset {
        Some(v) => parse_u64_spec(trim(v)),
        None => None,
    };
    match from_x {
        Some(n) => Some(n),
        None => match retry_after {
            Some(v) => match parse_u64_spec(trim(v)) {
                Some(secs) => Some(if now + secs > u64::MAX { u64::MAX } else { (now + secs) as u64 }),
                None => None,
            },
            None => None,
        },
    }
}

/// The characters of an optional string slice.
pub open spec fn opt_str(o: Option<&str>) -> Option<Seq<char>> {
    match o {
        Some(s) => Some(s@),
        None => None,
    }
}

fn parsed_header(v: Option<&str>) -> (r: Option<u64>)
    ensures
        r == match opt_str(v) {
            Some(t) => parse_u64_spec(trim(t)),
            None => None,
        },
{
    match v {
        Some(t) => {
            let s = trim_str(t);
            parse_u64(s.as_str())
        },
        None => None,
    }
}

/// When a rate limit resets, given the two headers' texts and the time
/// `now` (Unix seconds).
pub fn rate_limit_reset_at(x_reset: Option<&str>, retry_after: Option<&str>, now: u64) -> (r: Option<u64>)
    ensures
        r == reset_at_spec(opt_str(x_reset), opt_str(retry_after), now),
{
    match parsed_header(x_reset) {
        Some(n) => Some(n),
        None => match parsed_header(retry_after) {
            Some(secs) => Some(now.saturating_add(secs)),
            None => None,
        },
    }
}

/// The system clock in whole seconds since the Unix epoch (0 if the clock
/// is before the epoch). Nothing is claimed of the value: it is the time.
#[verifier::external_body]
fn unix_now_secs() -> u64 {
    std::time::SystemTime::now().duration_since(std::time::UNIX_EPOCH).map(|d| d.as_secs()).unwrap_or(0)
}

/// Extract a Unix-epoch-seconds "rate limit resets at" timestamp from the
/// texts of the `X-RateLimit-Reset` and `Retry-After` headers. We try, in
/// order:
///
/// 1. `X-RateLimit-Reset` — an absolute Unix epoch in seconds.
/// 2. `Retry-After` — an integer number of seconds, converted to an
///    absolute timestamp relative to "now" using the system clock.
///
/// Returns `None` if neither header is present or both fail to parse.
pub fn parse_rate_limit_reset(x_reset: Option<&str>, retry_after: Option<&str>) -> (r: Option<u64>)
    ensures
        exists|now: u64| r == #[trigger] reset_at_spec(opt_str(x_reset), opt_str(retry_after), now),
{
    let now = unix_now_secs();
    rate_limit_reset_at(x_reset, retry_after, now)
}

} // verus!
