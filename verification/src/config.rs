//! User config schema: PAT, watched repos/orgs, persisted window state.
use vstd::prelude::*;
use crate::text::{split_once, split_once_str, str_contains_char, is_blank, str_is_blank};

verus! {

/// Where to look for the GitHub personal access token.
#[derive(Debug, Clone, Copy, PartialEq, Eq, Structural)]
pub enum AuthSource {
    /// Use the PAT stored in the `pat` field.
    Pat,
    /// Use the GitHub CLI's stored credentials (reserved for future use).
    Gh,
}

impl Default for AuthSource {
    fn default() -> (r: Self)
        ensures
            r == AuthSource::Pat,
    {
        AuthSource::Pat
    }
}

/// A window position (top-left, in physical pixels).
#[derive(Debug, Clone, Copy, PartialEq, Eq, Structural)]
pub struct WindowPosition {
    /// X coordinate in physical pixels.
    pub x: i32,
    /// Y coordinate in physical pixels.
    pub y: i32,
}

/// The full user config, persisted to the platform's user config dir as
/// TOML.
#[derive(Debug, Clone, PartialEq, Eq)]
pub struct Config {
    /// Personal access token.
    pub pat: String,
    /// Where to source the token from.
    pub auth_source: AuthSource,
    /// GitHub username (used to fetch `received_events`).
    pub username: Option<String>,
    /// Orgs to watch.
    pub orgs: Vec<String>,
    /// Repos to watch ("owner/name").
    pub repos: Vec<String>,
    /// Poll interval in seconds. Defaults to 600 (10 minutes).
    pub poll_interval_secs: u64,
    /// Whether desktop notifications are enabled.
    pub notifications_enabled: bool,
    /// Last known window position.
    pub window_position: Option<WindowPosition>,
}

/// The value of a [`Config`].
pub struct ConfigView {
    pub pat: Seq<char>,
    pub auth_source: AuthSource,
    pub username: Option<Seq<char>>,
    pub orgs: Seq<Seq<char>>,
    pub repos: Seq<Seq<char>>,
    pub poll_interval_secs: u64,
    pub notifications_enabled: bool,
    pub window_position: Option<WindowPosition>,
}

impl View for Config {
    type V = ConfigView;

    open spec fn view(&self) -> ConfigView {
        ConfigView {
            pat: self.pat@,
            auth_source: self.auth_source,
            username: crate::events::opt_view(self.username),
            orgs: crate::text::views(self.orgs@),
            repos: crate::text::views(self.repos@),
            poll_interval_secs: self.poll_interval_secs,
            notifications_enabled: self.notifications_enabled,
            window_position: self.window_position,
        }
    }
}

/// The default poll interval in seconds.
pub fn default_poll_interval() -> (r: u64)
    ensures
        r == 600,
{
    600
}

impl Default for Config {
    fn default() -> (r: Self)
        ensures
            r@.pat.len() == 0,
            r@.auth_source == AuthSource::Pat,
            r@.username is None,
            r@.orgs.len() == 0,
            r@.repos.len() == 0,
            r@.poll_interval_secs == 600,
            !r@.notifications_enabled,
            r@.window_position is None,
    {
        let r = Config {
            pat: String::new(),
            auth_source: AuthSource::Pat,
            username: None,
            orgs: Vec::new(),
            repos: Vec::new(),
            poll_interval_secs: default_poll_interval(),
            notifications_enabled: false,
            window_position: None,
        };
        assert(r@.orgs =~= Seq::<Seq<char>>::empty());
        assert(r@.repos =~= Seq::<Seq<char>>::empty());
        r
    }
}

/// `r` has the form `owner/name`: one slash, with text on both sides.
pub open spec fn repo_form_ok(r: Seq<char>) -> bool {
    match split_once(r, '/') {
        Some((owner, name)) => owner.len() > 0 && name.len() > 0 && !name.contains('/'),
        None => false,
    }
}

/// Whether `r` has the form `owner/name`.
pub fn repo_form(r: &str) -> (b: bool)
    ensures
        b == repo_form_ok(r@),
{
    match split_once_str(r, '/') {
        Some((owner, name)) => owner.unicode_len() > 0 && name.unicode_len() > 0 && !str_contains_char(
            name.as_str(),
            '/',
        ),
        None => false,
    }
}

/// The position of the first repo of `repos` not of the form
/// `owner/name` (-1 when all are).
pub open spec fn first_bad_repo(repos: Seq<Seq<char>>) -> int
    decreases repos.len(),
{
    if repos.len() == 0 {
        -1
    } else {
        let p = first_bad_repo(repos.drop_last());
        if p >= 0 {
            p
        } else if !repo_form_ok(repos.last()) {
            repos.len() - 1
        } else {
            -1
        }
    }
}

/// Why `c` is invalid, checked in this order: a blank PAT, no source to
/// watch, a poll interval under five seconds, a repo not of the form
/// `owner/name` (the first such); `None` when it is valid.
pub open spec fn config_problem(c: ConfigView) -> Option<Seq<char>> {
    if is_blank(c.pat) {
        Some("pat is empty"@)
    } else if c.username is None && c.orgs.len() == 0 && c.repos.len() == 0 {
        Some("at least one of username, orgs, or repos must be set"@)
    } else if c.poll_interval_secs < 5 {
        Some("poll_interval_secs must be >= 5"@)
    } else if first_bad_repo(c.repos) >= 0 {
        Some("repo '"@ + c.repos[first_bad_repo(c.repos)] + "' must be in 'owner/name' form"@)
    } else {
        None
    }
}

proof fn lemma_first_bad_repo_take(repos: Seq<Seq<char>>, i: int)
    requires
        0 <= i < repos.len(),
        first_bad_repo(repos.take(i)) < 0,
    ensures
        first_bad_repo(repos.take(i + 1)) == (if repo_form_ok(repos[i]) { -1 } else { i }),
{
    assert(repos.take(i + 1).drop_last() =~= repos.take(i));
}

proof fn lemma_first_bad_repo_prefix(repos: Seq<Seq<char>>, i: int)
    requires
        0 <= i <= repos.len(),
        first_bad_repo(repos.take(i)) >= 0,
    ensures
        first_bad_repo(repos) == first_bad_repo(repos.take(i)),
    decreases repos.len() - i,
{
    if i < repos.len() {
        assert(repos.take(i + 1).drop_last() =~= repos.take(i));
        lemma_first_bad_repo_prefix(repos, i + 1);
    } else {
        assert(repos.take(i) =~= repos);
    }
}

impl Config {
    /// A copy of this config with the same value.
    pub fn copy(&self) -> (r: Config)
        ensures
            r@ == self@,
    {
        Config {
            pat: self.pat.clone(),
            auth_source: self.auth_source,
            username: crate::events::copy_opt(&self.username),
            orgs: crate::text::copy_strings(&self.orgs),
            repos: crate::text::copy_strings(&self.repos),
            poll_interval_secs: self.poll_interval_secs,
            notifications_enabled: self.notifications_enabled,
            window_position: self.window_position,
        }
    }

    /// Validate the config. Returns Err if any required field is missing
    /// or malformed.
    pub fn validate(&self) -> (r: Result<(), String>)
        ensures
            match r {
                Ok(()) => config_problem(self@) is None,
                Err(msg) => config_problem(self@) == Some(msg@),
            },
    {
        if str_is_blank(self.pat.as_str()) {
            return Err(String::from_str("pat is empty"));
        }
        assert(self@.orgs.len() == self.orgs@.len());
        assert(self@.repos.len() == self.repos@.len());
        if self.username.is_none() && self.orgs.len() == 0 && self.repos.len() == 0 {
            return Err(String::from_str("at least one of username, orgs, or repos must be set"));
        }
        if self.poll_interval_secs < 5 {
            return Err(String::from_str("poll_interval_secs must be >= 5"));
        }
        let ghost rs = self@.repos;
        let n = self.repos.len();
        let mut i: usize = 0;
        assert(rs.take(0) =~= Seq::<Seq<char>>::empty());
        while i < n
            invariant
                n == self.repos@.len(),
                rs == self@.repos,
                !is_blank(self@.pat),
                !(self@.username is None && self@.orgs.len() == 0 && self@.repos.len() == 0),
                self@.poll_interval_secs >= 5,
                i <= n,
                first_bad_repo(rs.take(i as int)) < 0,
            decreases n - i,
        {
            proof {
                lemma_first_bad_repo_take(rs, i as int);
            }
            assert(rs[i as int] == self.repos@[i as int]@);
            if !repo_form(self.repos[i].as_str()) {
                proof {
                    lemma_first_bad_repo_prefix(rs, i + 1);
                }
                let msg = String::from_str("repo '").concat(self.repos[i].as_str()).concat(
                    "' must be in 'owner/name' form",
                );
                return Err(msg);
            }
            i = i + 1;
        }
        assert(rs.take(n as int) =~= rs);
        Ok(())
    }
}

} // verus!
