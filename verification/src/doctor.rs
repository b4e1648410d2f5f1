//! The decisions of `gh-monitor doctor`: check results, how they are
//! printed, the exit code, and what each check concludes from what it
//! observed. The observations themselves (files, network, display) are
//! made by the application.
use vstd::prelude::*;
use crate::config::{Config, config_problem};
use crate::text::{is_blank, str_is_blank, u64_to_decimal, decimal};

verus! {

/// The outcome of a single doctor check.
#[derive(Debug, Clone, Copy, PartialEq, Eq, Structural)]
pub enum Status {
    /// Check passed.
    Pass,
    /// Check passed with a caveat the user should know about. Exits 2.
    Warn,
    /// Check failed. Exits 1.
    Fail,
}

/// The fixed label of a status.
pub open spec fn status_label(s: Status) -> Seq<char> {
    match s {
        Status::Pass => "OK"@,
        Status::Warn => "WARN"@,
        Status::Fail => "FAIL"@,
    }
}

/// The label padded with spaces to four columns.
pub open spec fn padded_label(s: Status) -> Seq<char> {
    match s {
        Status::Pass => "OK  "@,
        Status::Warn => "WARN"@,
        Status::Fail => "FAIL"@,
    }
}

/// The SGR color parameter of a status.
pub open spec fn status_sgr(s: Status) -> Seq<char> {
    match s {
        Status::Pass => "32"@,
        Status::Warn => "33"@,
        Status::Fail => "31"@,
    }
}

impl Status {
    /// The fixed label: `"OK"`, `"WARN"`, `"FAIL"`. Printers left-pad
    /// to four columns for alignment.
    pub fn label(self) -> (r: &'static str)
        ensures
            r@ == status_label(self),
    {
        match self {
            Status::Pass => "OK",
            Status::Warn => "WARN",
            Status::Fail => "FAIL",
        }
    }

    /// Whether this is a failure.
    pub fn is_fail(self) -> (r: bool)
        ensures
            r == (self == Status::Fail),
    {
        match self {
            Status::Fail => true,
            _ => false,
        }
    }

    /// Whether this is a warning.
    pub fn is_warn(self) -> (r: bool)
        ensures
            r == (self == Status::Warn),
    {
        match self {
            Status::Warn => true,
            _ => false,
        }
    }

    /// SGR color parameter for this status: `32` (green), `33`
    /// (yellow), `31` (red).
    pub fn sgr(self) -> (r: &'static str)
        ensures
            r@ == status_sgr(self),
    {
        match self {
            Status::Pass => "32",
            Status::Warn => "33",
            Status::Fail => "31",
        }
    }

    fn padded(self) -> (r: &'static str)
        ensures
            r@ == padded_label(self),
    {
        match self {
            Status::Pass => "OK  ",
            Status::Warn => "WARN",
            Status::Fail => "FAIL",
        }
    }
}

/// One printable check result.
#[derive(Debug, Clone, PartialEq, Eq)]
pub struct CheckResult {
    pub status: Status,
    pub label: String,
    pub detail: String,
}

impl CheckResult {
    /// A passed check.
    pub fn ok(label: &str, detail: &str) -> (r: Self)
        ensures
            r.status == Status::Pass,
            r.label@ == label@,
            r.detail@ == detail@,
    {
        CheckResult { status: Status::Pass, label: String::from_str(label), detail: String::from_str(detail) }
    }

    /// A check that passed with a caveat.
    pub fn warn(label: &str, detail: &str) -> (r: Self)
        ensures
            r.status == Status::Warn,
            r.label@ == label@,
            r.detail@ == detail@,
    {
        CheckResult { status: Status::Warn, label: String::from_str(label), detail: String::from_str(detail) }
    }

    /// A failed check.
    pub fn fail(label: &str, detail: &str) -> (r: Self)
        ensures
            r.status == Status::Fail,
            r.label@ == label@,
            r.detail@ == detail@,
    {
        CheckResult { status: Status::Fail, label: String::from_str(label), detail: String::from_str(detail) }
    }
}

/// `[ {status:<4} ] {label}: {detail}`
pub open spec fn check_text(status: Status, label: Seq<char>, detail: Seq<char>) -> Seq<char> {
    "[ "@ + padded_label(status) + " ] "@ + label + ": "@ + detail
}

/// Format a check result as the single printable line.
pub fn format_check_line(r: &CheckResult) -> (s: String)
    ensures
        s@ == check_text(r.status, r.label@, r.detail@),
{
    String::from_str("[ ").concat(r.status.padded()).concat(" ] ").concat(r.label.as_str()).concat(": ").concat(
        r.detail.as_str(),
    )
}

/// The line `writeln_check` writes for `r`, newline included: plain, or
/// with the status word wrapped in its ANSI color.
pub open spec fn written_line(status: Status, label: Seq<char>, detail: Seq<char>, use_color: bool) -> Seq<char> {
    if use_color {
        "[ \x1b["@ + status_sgr(status) + "m"@ + padded_label(status) + "\x1b[0m ] "@ + label + ": "@ + detail + "\n"@
    } else {
        check_text(status, label, detail) + "\n"@
    }
}

/// The text of one check result line, newline included, optionally
/// ANSI-colored (green/yellow/red on the status word; the rest is plain).
pub fn check_line(r: &CheckResult, use_color: bool) -> (s: String)
    ensures
        s@ == written_line(r.status, r.label@, r.detail@, use_color),
{
    if use_color {
        String::from_str("[ \x1b[").concat(r.status.sgr()).concat("m").concat(r.status.padded()).concat(
            "\x1b[0m ] ",
        ).concat(r.label.as_str()).concat(": ").concat(r.detail.as_str()).concat("\n")
    } else {
        format_check_line(r).concat("\n")
    }
}

/// The exit code for the statuses `s`: 1 when any failed, else 2 when
/// any warned, else 0.
pub open spec fn exit_code_of(s: Seq<Status>) -> i32 {
    if exists|i: int| 0 <= i < s.len() && s[i] == Status::Fail {
        1
    } else if exists|i: int| 0 <= i < s.len() && s[i] == Status::Warn {
        2
    } else {
        0
    }
}

/// The statuses of `results`.
pub open spec fn statuses(results: Seq<CheckResult>) -> Seq<Status> {
    results.map_values(|r: CheckResult| r.status)
}

/// Map a slice of check results to a process exit code:
/// 0 = all OK, 1 = any FAIL, 2 = any WARN (no FAIL).
pub fn exit_code(results: &[CheckResult]) -> (c: i32)
    ensures
        c == exit_code_of(statuses(results@)),
{
    let ghost s = statuses(results@);
    let n = results.len();
    let mut any_fail = false;
    let mut any_warn = false;
    let mut i: usize = 0;
    while i < n
        invariant
            n == results@.len(),
            s == statuses(results@),
            i <= n,
            any_fail == exists|k: int| 0 <= k < i && s[k] == Status::Fail,
            any_warn == exists|k: int| 0 <= k < i && s[k] == Status::Warn,
        decreases n - i,
    {
        assert(s[i as int] == results@[i as int].status);
        if results[i].status.is_fail() {
            any_fail = true;
        }
        if results[i].status.is_warn() {
            any_warn = true;
        }
        i = i + 1;
    }
    if any_fail {
        1
    } else if any_warn {
        2
    } else {
        0
    }
}

/// Whether a PAT is set.
pub fn check_pat(config: &Config) -> (r: CheckResult)
    ensures
        is_blank(config.pat@) ==> r.status == Status::Warn && r.label@ == "pat"@ && r.detail@ == "no PAT set"@,
        !is_blank(config.pat@) ==> r.status == Status::Pass && r.label@ == "pat"@ && r.detail@ == "set"@,
{
    if str_is_blank(config.pat.as_str()) {
        CheckResult::warn("pat", "no PAT set")
    } else {
        CheckResult::ok("pat", "set")
    }
}

/// What the doctor found of the config file.
#[derive(Debug)]
pub enum ConfigProbe {
    /// No file; the path as displayed.
    Missing(String),
    /// The file could not be read; the error as displayed.
    ReadFailed(String),
    /// The file is not valid TOML for a config; the error as displayed.
    InvalidToml(String),
    /// The file parsed; its config and its length in bytes.
    Parsed(Config, u64),
}

/// The config check's conclusion from what was found.
pub fn config_check(probe: &ConfigProbe) -> (r: CheckResult)
    ensures
        r.label@ == "config"@,
        match probe {
            ConfigProbe::Missing(p) => r.status == Status::Warn && r.detail@ == "file missing at "@ + p@
                + "; run `gh-monitor init` or set GH_MONITOR_* env vars"@,
            ConfigProbe::ReadFailed(e) => r.status == Status::Fail && r.detail@ == "read failed: "@ + e@,
            ConfigProbe::InvalidToml(e) => r.status == Status::Fail && r.detail@ == "invalid TOML: "@ + e@,
            ConfigProbe::Parsed(c, n) => match config_problem(c@) {
                Some(m) => r.status == Status::Fail && r.detail@ == "validation failed: "@ + m,
                None => r.status == Status::Pass && r.detail@ == "valid, "@ + decimal(*n as nat) + " bytes"@,
            },
        },
{
    match probe {
        ConfigProbe::Missing(p) => {
            let d = String::from_str("file missing at ").concat(p.as_str()).concat(
                "; run `gh-monitor init` or set GH_MONITOR_* env vars",
            );
            CheckResult::warn("config", d.as_str())
        },
        ConfigProbe::ReadFailed(e) => {
            let d = String::from_str("read failed: ").concat(e.as_str());
            CheckResult::fail("config", d.as_str())
        },
        ConfigProbe::InvalidToml(e) => {
            let d = String::from_str("invalid TOML: ").concat(e.as_str());
            CheckResult::fail("config", d.as_str())
        },
        ConfigProbe::Parsed(c, n) => match c.validate() {
            Err(m) => {
                let d = String::from_str("validation failed: ").concat(m.as_str());
                CheckResult::fail("config", d.as_str())
            },
            Ok(()) => {
                let d = String::from_str("valid, ").concat(u64_to_decimal(*n).as_str()).concat(" bytes");
                CheckResult::ok("config", d.as_str())
            },
        },
    }
}

/// The API base the doctor checks against.
pub const GITHUB_API_BASE: &'static str = "https://api.github.com";

/// The user the username check asks about and the URL it asks at, or
/// its conclusion when no username is set.
pub fn username_probe(config: &Config) -> (r: Result<(String, String), CheckResult>)
    ensures
        match r {
            Ok((user, url)) => config@.username == Some(user@) && user@.len() > 0
                && url@ == GITHUB_API_BASE@ + "/users/"@ + user@,
            Err(res) => (config@.username is None || config@.username == Some(Seq::<char>::empty()))
                && res.status == Status::Warn && res.label@ == "username"@ && res.detail@ == "not set"@,
        },
{
    match &config.username {
        Some(u) => {
            if u.unicode_len() == 0 {
                assert(u@ =~= Seq::<char>::empty());
                return Err(CheckResult::warn("username", "not set"));
            }
            let url = String::from_str(GITHUB_API_BASE).concat("/users/").concat(u.as_str());
            Ok((u.clone(), url))
        },
        None => Err(CheckResult::warn("username", "not set")),
    }
}

/// The username check's conclusion from the reply: the status line and
/// whether it is a success, or the network error's text.
pub fn username_outcome(user: &str, reply: Result<(bool, &str), &str>) -> (r: CheckResult)
    ensures
        r.label@ == "username"@,
        match reply {
            Ok((success, status)) => r.status == (if success { Status::Pass } else { Status::Fail })
                && r.detail@ == "@"@ + user@ + ": "@ + status@,
            Err(e) => r.status == Status::Fail && r.detail@ == "@"@ + user@ + ": network error: "@ + e@,
        },
{
    match reply {
        Ok((success, status)) => {
            let d = String::from_str("@").concat(user).concat(": ").concat(status);
            if success {
                CheckResult::ok("username", d.as_str())
            } else {
                CheckResult::fail("username", d.as_str())
            }
        },
        Err(e) => {
            let d = String::from_str("@").concat(user).concat(": network error: ").concat(e);
            CheckResult::fail("username", d.as_str())
        },
    }
}

/// The label and URL of the orgs/repos check: the first org, else the
/// first repo; or its conclusion when there is neither or the repo is
/// malformed.
pub fn orgs_repos_probe(config: &Config) -> (r: Result<(String, String), CheckResult>)
    ensures
        config@.orgs.len() > 0 ==> (r matches Ok((label, url)) && label@ == "orgs/"@ + config@.orgs[0]
            && url@ == GITHUB_API_BASE@ + "/orgs/"@ + config@.orgs[0] + "/events"@),
        config@.orgs.len() == 0 && config@.repos.len() > 0 ==> match crate::text::split_once(config@.repos[0], '/') {
            Some((owner, name)) => (r matches Ok((label, url)) && label@ == "repos/"@ + config@.repos[0]
                && url@ == GITHUB_API_BASE@ + "/repos/"@ + owner + "/"@ + name + "/events"@),
            None => (r matches Err(res) && res.status == Status::Fail && res.label@ == "repos"@
                && res.detail@ == "malformed repo: "@ + config@.repos[0]),
        },
        config@.orgs.len() == 0 && config@.repos.len() == 0 ==> (r matches Err(res) && res.status == Status::Warn
            && res.label@ == "orgs/repos"@ && res.detail@ == "none set"@),
{
    if config.orgs.len() > 0 {
        let org = &config.orgs[0];
        assert(config@.orgs[0] == org@);
        let label = String::from_str("orgs/").concat(org.as_str());
        let url = String::from_str(GITHUB_API_BASE).concat("/orgs/").concat(org.as_str()).concat("/events");
        Ok((label, url))
    } else if config.repos.len() > 0 {
        let repo = &config.repos[0];
        assert(config@.repos[0] == repo@);
        match crate::text::split_once_str(repo.as_str(), '/') {
            Some((owner, name)) => {
                let label = String::from_str("repos/").concat(repo.as_str());
                let url = String::from_str(GITHUB_API_BASE).concat("/repos/").concat(owner.as_str()).concat(
                    "/",
                ).concat(name.as_str()).concat("/events");
                Ok((label, url))
            },
            None => {
                let d = String::from_str("malformed repo: ").concat(repo.as_str());
                Err(CheckResult::fail("repos", d.as_str()))
            },
        }
    } else {
        assert(config@.orgs.len() == 0 && config@.repos.len() == 0);
        Err(CheckResult::warn("orgs/repos", "none set"))
    }
}

/// The orgs/repos check's conclusion from the reply: the status line and
/// whether it is a success, or the network error's text.
pub fn orgs_repos_outcome(label: &str, reply: Result<(bool, &str), &str>) -> (r: CheckResult)
    ensures
        r.label@ == label@,
        match reply {
            Ok((success, status)) => r.status == (if success { Status::Pass } else { Status::Fail })
                && r.detail@ == status@,
            Err(e) => r.status == Status::Fail && r.detail@ == "network error: "@ + e@,
        },
{
    match reply {
        Ok((success, status)) => {
            if success {
                CheckResult::ok(label, status)
            } else {
                CheckResult::fail(label, status)
            }
        },
        Err(e) => {
            let d = String::from_str("network error: ").concat(e);
            CheckResult::fail(label, d.as_str())
        },
    }
}

} // verus!
