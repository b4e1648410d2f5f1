//! The settings form: the editable mirror of [`Config`]. Every mutation
//! goes through [`SettingsForm::update_field`]; Save builds a validated
//! config with [`SettingsForm::to_config`].
use vstd::prelude::*;
use crate::config::{Config, ConfigView, AuthSource, config_problem};
use crate::text::{trim, trim_start, trim_end, clean_item, lemma_decimal_reads_back, lemma_list_items_join, trim_str, join, join_strings, list_items, parse_list, parse_u64, parse_u64_spec, decimal, u64_to_decimal, str_eq};

verus! {

/// An editable field in the settings form.
#[derive(Debug, Clone, Copy, PartialEq, Eq, Structural)]
pub enum SettingsField {
    /// Personal access token.
    Pat,
    /// Auth source (`Pat` | `Gh`).
    AuthSource,
    /// GitHub username.
    Username,
    /// Comma-separated orgs.
    Orgs,
    /// Comma-separated repos (`owner/name`).
    Repos,
    /// Poll interval in seconds.
    PollInterval,
    /// System notifications on new activity.
    Notifications,
}

/// The settings form's working copy. Text fields hold what the user
/// typed; numbers and lists are parsed only at Save time.
#[derive(Debug, Clone, PartialEq, Eq)]
pub struct SettingsForm {
    pat: String,
    auth_source: AuthSource,
    username: String,
    orgs: String,
    repos: String,
    poll_interval_secs: String,
    notifications_enabled: bool,
}

/// The value of a [`SettingsForm`].
pub struct FormView {
    pub pat: Seq<char>,
    pub auth_source: AuthSource,
    pub username: Seq<char>,
    pub orgs: Seq<char>,
    pub repos: Seq<char>,
    pub poll_interval_secs: Seq<char>,
    pub notifications_enabled: bool,
}

impl View for SettingsForm {
    type V = FormView;

    closed spec fn view(&self) -> FormView {
        FormView {
            pat: self.pat@,
            auth_source: self.auth_source,
            username: self.username@,
            orgs: self.orgs@,
            repos: self.repos@,
            poll_interval_secs: self.poll_interval_secs@,
            notifications_enabled: self.notifications_enabled,
        }
    }
}

/// `, `
pub open spec fn list_sep() -> Seq<char> {
    seq![',', ' ']
}

/// The form showing the config `c`.
pub open spec fn form_of(c: ConfigView) -> FormView {
    FormView {
        pat: c.pat,
        auth_source: c.auth_source,
        username: match c.username {
            Some(u) => u,
            None => Seq::empty(),
        },
        orgs: join(c.orgs, list_sep()),
        repos: join(c.repos, list_sep()),
        poll_interval_secs: decimal(c.poll_interval_secs as nat),
        notifications_enabled: c.notifications_enabled,
    }
}

/// How `{:?}` writes the string `s` (quoted, with escapes).
pub uninterp spec fn debug_str_text(s: Seq<char>) -> Seq<char>;

/// Writes `s` with `format!("{:?}", s)`. The contract claims that the
/// result is what [`debug_str_text`] names for `s`.
#[verifier::external_body]
fn debug_quoted(s: &str) -> (r: String)
    ensures
        r@ == debug_str_text(s@),
{
    format!("{:?}", s)
}

/// The config a Save builds from the form `f`, keeping the window position
/// `pos`; or the message of the first problem.
pub open spec fn saved_config(f: FormView, pos: Option<crate::config::WindowPosition>) -> Result<ConfigView, Seq<char>> {
    match parse_u64_spec(trim(f.poll_interval_secs)) {
        None => Err("poll interval must be a whole number of seconds (got "@ + debug_str_text(f.poll_interval_secs) + ")"@),
        Some(n) => {
            let c = ConfigView {
                pat: trim(f.pat),
                auth_source: f.auth_source,
                username: if trim(f.username).len() == 0 { None } else { Some(trim(f.username)) },
                orgs: list_items(f.orgs),
                repos: list_items(f.repos),
                poll_interval_secs: n,
                notifications_enabled: f.notifications_enabled,
                window_position: pos,
            };
            match config_problem(c) {
                Some(m) => Err(m),
                None => Ok(c),
            }
        },
    }
}

/// The auth source an answer names: `gh`, or else the PAT.
pub open spec fn auth_source_named(v: Seq<char>) -> AuthSource {
    if v == "gh"@ { AuthSource::Gh } else { AuthSource::Pat }
}

/// Whether an answer turns notifications on: `true`, `1` or `on`.
pub open spec fn flag_named(v: Seq<char>) -> bool {
    v == "true"@ || v == "1"@ || v == "on"@
}

/// The form `f` with `field` set from the text `v`.
pub open spec fn with_field(f: FormView, field: SettingsField, v: Seq<char>) -> FormView {
    match field {
        SettingsField::Pat => FormView { pat: v, ..f },
        SettingsField::AuthSource => FormView { auth_source: auth_source_named(v), ..f },
        SettingsField::Username => FormView { username: v, ..f },
        SettingsField::Orgs => FormView { orgs: v, ..f },
        SettingsField::Repos => FormView { repos: v, ..f },
        SettingsField::PollInterval => FormView { poll_interval_secs: v, ..f },
        SettingsField::Notifications => FormView { notifications_enabled: flag_named(v), ..f },
    }
}

fn set_if_changed(slot: &mut String, value: String) -> (changed: bool)
    ensures
        changed == (old(slot)@ != value@),
        final(slot)@ == value@,
{
    if *slot == value {
        false
    } else {
        *slot = value;
        true
    }
}

impl SettingsForm {
    /// Build a form initialised from `cfg`.
    pub fn from_config(cfg: &Config) -> (r: Self)
        ensures
            r@ == form_of(cfg@),
    {
        let username = match &cfg.username {
            Some(u) => u.clone(),
            None => String::new(),
        };
        let r = SettingsForm {
            pat: cfg.pat.clone(),
            auth_source: cfg.auth_source,
            username,
            orgs: join_strings(&cfg.orgs, ", "),
            repos: join_strings(&cfg.repos, ", "),
            poll_interval_secs: u64_to_decimal(cfg.poll_interval_secs),
            notifications_enabled: cfg.notifications_enabled,
        };
        proof {
            reveal_strlit(", ");
            assert(", "@ =~= list_sep());
        }
        r
    }

    /// Build a form from the default config.
    pub fn from_default() -> (r: Self)
        ensures
            r@.pat.len() == 0,
            r@.auth_source == AuthSource::Pat,
            r@.username.len() == 0,
            r@.orgs.len() == 0,
            r@.repos.len() == 0,
            r@.poll_interval_secs == decimal(600),
            !r@.notifications_enabled,
    {
        let c = Config::default();
        Self::from_config(&c)
    }

    /// Validate the form and build a [`Config`]. `window_position` is
    /// taken from the live `current` config so a Save does not lose
    /// where the user has dragged the overlay to.
    pub fn to_config(&self, current: &Config) -> (r: Result<Config, String>)
        ensures
            match r {
                Ok(c) => saved_config(self@, current.window_position) == Ok::<ConfigView, Seq<char>>(c@),
                Err(m) => saved_config(self@, current.window_position) == Err::<ConfigView, Seq<char>>(m@),
            },
    {
        let pat = trim_str(self.pat.as_str());
        let username_raw = trim_str(self.username.as_str());
        let username = if username_raw.unicode_len() == 0 { None } else { Some(username_raw) };
        let orgs = parse_list(self.orgs.as_str());
        let repos = parse_list(self.repos.as_str());
        let interval_text = trim_str(self.poll_interval_secs.as_str());
        let poll_interval_secs = match parse_u64(interval_text.as_str()) {
            Some(n) => n,
            None => {
                let q = debug_quoted(self.poll_interval_secs.as_str());
                let m = String::from_str("poll interval must be a whole number of seconds (got ").concat(
                    q.as_str(),
                ).concat(")");
                return Err(m);
            },
        };
        let cfg = Config {
            pat,
            auth_source: self.auth_source,
            username,
            orgs,
            repos,
            poll_interval_secs,
            notifications_enabled: self.notifications_enabled,
            window_position: current.window_position,
        };
        match cfg.validate() {
            Ok(()) => Ok(cfg),
            Err(m) => Err(m),
        }
    }

    /// Replace the value of `field` with `value`. Strings are stored
    /// verbatim (no trimming); the only coercion is on the enum and bool
    /// fields. Returns `false` if the value didn't actually change.
    pub fn update_field(&mut self, field: SettingsField, value: String) -> (changed: bool)
        ensures
            final(self)@ == with_field(old(self)@, field, value@),
            changed == (final(self)@ != old(self)@),
    {
        match field {
            SettingsField::Pat => set_if_changed(&mut self.pat, value),
            SettingsField::AuthSource => {
                let parsed = if str_eq(value.as_str(), "gh") { AuthSource::Gh } else { AuthSource::Pat };
                if parsed == self.auth_source {
                    false
                } else {
                    self.auth_source = parsed;
                    true
                }
            },
            SettingsField::Username => set_if_changed(&mut self.username, value),
            SettingsField::Orgs => set_if_changed(&mut self.orgs, value),
            SettingsField::Repos => set_if_changed(&mut self.repos, value),
            SettingsField::PollInterval => set_if_changed(&mut self.poll_interval_secs, value),
            SettingsField::Notifications => {
                let v = value.as_str();
                let parsed = str_eq(v, "true") || str_eq(v, "1") || str_eq(v, "on");
                if parsed == self.notifications_enabled {
                    false
                } else {
                    self.notifications_enabled = parsed;
                    true
                }
            },
        }
    }

    /// The PAT as typed.
    pub fn pat(&self) -> (r: &str)
        ensures
            r@ == self@.pat,
    {
        self.pat.as_str()
    }

    /// The auth source.
    pub fn auth_source(&self) -> (r: AuthSource)
        ensures
            r == self@.auth_source,
    {
        self.auth_source
    }

    /// The username as typed.
    pub fn username(&self) -> (r: &str)
        ensures
            r@ == self@.username,
    {
        self.username.as_str()
    }

    /// The orgs as typed.
    pub fn orgs(&self) -> (r: &str)
        ensures
            r@ == self@.orgs,
    {
        self.orgs.as_str()
    }

    /// The repos as typed.
    pub fn repos(&self) -> (r: &str)
        ensures
            r@ == self@.repos,
    {
        self.repos.as_str()
    }

    /// The poll interval as typed.
    pub fn poll_interval_secs(&self) -> (r: &str)
        ensures
            r@ == self@.poll_interval_secs,
    {
        self.poll_interval_secs.as_str()
    }

    /// Whether notifications are on.
    pub fn notifications_enabled(&self) -> (r: bool)
        ensures
            r == self@.notifications_enabled,
    {
        self.notifications_enabled
    }
}


/// Law: opening the settings form on a valid config and saving it
/// unchanged gives the same config back, whenever the config's text is as
/// the form reads it: a token without surrounding white space, no
/// username or a non-empty trimmed one, and org and repo names that are
/// non-empty, trimmed and free of commas.
pub proof fn law_form_round_trip(c: ConfigView)
    requires
        config_problem(c) is None,
        trim(c.pat) == c.pat,
        c.username matches Some(u) ==> u.len() > 0 && trim(u) == u,
        forall|k: int| 0 <= k < c.orgs.len() ==> clean_item(#[trigger] c.orgs[k]),
        forall|k: int| 0 <= k < c.repos.len() ==> clean_item(#[trigger] c.repos[k]),
    ensures
        saved_config(form_of(c), c.window_position) == Ok::<ConfigView, Seq<char>>(c),
{
    let f = form_of(c);
    lemma_decimal_reads_back(c.poll_interval_secs);
    lemma_list_items_join(c.orgs);
    lemma_list_items_join(c.repos);
    let e = Seq::<char>::empty();
    assert(trim_start(e) == e);
    assert(trim_end(e) == e);
    assert(trim(f.username).len() == 0 <==> c.username is None);
}

} // verus!
