//! The decisions of the first-time setup wizard (`gh-monitor init`):
//! building a validated config from the answers and reading the poll
//! interval answer. Prompting and writing the file are done by the
//! application.
use vstd::prelude::*;
use crate::config::{Config, ConfigView, AuthSource, config_problem};
use crate::text::{is_blank, str_is_blank, parse_u64, parse_u64_spec, views};
pub use crate::text::parse_list;

verus! {

/// The config the wizard builds from its answers: the given values, no
/// username when the answer is blank, defaults for the rest.
pub open spec fn wizard_config(pat: Seq<char>, username: Seq<char>, orgs: Seq<Seq<char>>, repos: Seq<Seq<char>>, poll_interval_secs: u64) -> ConfigView {
    ConfigView {
        pat: pat,
        auth_source: AuthSource::Pat,
        username: if is_blank(username) { None } else { Some(username) },
        orgs: orgs,
        repos: repos,
        poll_interval_secs: poll_interval_secs,
        notifications_enabled: false,
        window_position: None,
    }
}

/// Build a [`Config`] from raw user input and validate it. Returns the
/// validation error message on failure.
pub fn build_config(pat: String, username: String, orgs: Vec<String>, repos: Vec<String>, poll_interval_secs: u64) -> (r: Result<Config, String>)
    ensures
        match r {
            Ok(c) => c@ == wizard_config(pat@, username@, views(orgs@), views(repos@), poll_interval_secs)
                && config_problem(c@) is None,
            Err(m) => config_problem(wizard_config(pat@, username@, views(orgs@), views(repos@), poll_interval_secs))
                == Some(m@),
        },
{
    let username = if str_is_blank(username.as_str()) { None } else { Some(username) };
    let cfg = Config {
        pat,
        auth_source: AuthSource::Pat,
        username,
        orgs,
        repos,
        poll_interval_secs,
        notifications_enabled: false,
        window_position: None,
    };
    match cfg.validate() {
        Ok(()) => Ok(cfg),
        Err(m) => Err(m),
    }
}

/// What the wizard makes of the poll interval answer.
#[derive(Debug, Clone, Copy, PartialEq, Eq, Structural)]
pub enum IntervalAnswer {
    /// Use this many seconds.
    Seconds(u64),
    /// A number under five seconds; ask again.
    TooShort,
    /// Not a whole number; ask again.
    NotANumber,
}

/// The wizard's reading of the (trimmed) poll interval answer: empty means
/// the default of 600 seconds; a number of at least five is taken.
pub open spec fn interval_answer(raw: Seq<char>) -> IntervalAnswer {
    if raw.len() == 0 {
        IntervalAnswer::Seconds(600)
    } else {
        match parse_u64_spec(raw) {
            Some(n) => if n >= 5 { IntervalAnswer::Seconds(n) } else { IntervalAnswer::TooShort },
            None => IntervalAnswer::NotANumber,
        }
    }
}

/// Read the poll interval answer.
pub fn read_interval_answer(raw: &str) -> (r: IntervalAnswer)
    ensures
        r == interval_answer(raw@),
{
    if raw.unicode_len() == 0 {
        return IntervalAnswer::Seconds(600);
    }
    match parse_u64(raw) {
        Some(n) => if n >= 5 { IntervalAnswer::Seconds(n) } else { IntervalAnswer::TooShort },
        None => IntervalAnswer::NotANumber,
    }
}

} // verus!
