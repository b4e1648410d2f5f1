//! What the overlay shows, decided apart from how it is drawn: the
//! empty-state text, the status banner, node classes, pair labels and the
//! hover-driven passthrough state.
use vstd::prelude::*;
use crate::events::EventKind;
use crate::snapshot::NodeKind;
use crate::text::u64_to_decimal;

verus! {

/// The lines of the empty state: setup instructions while no token is
/// set, else the status when there is one, else "No recent activity".
pub open spec fn empty_lines(needs_setup: bool, status: Option<Seq<char>>) -> Seq<Seq<char>> {
    if needs_setup {
        seq![
            "gh-monitor"@,
            Seq::empty(),
            "No personal access token set."@,
            "Run one of:"@,
            "  gh-monitor config edit"@,
            "  GH_MONITOR_PAT=ghp_... gh-monitor"@
        ]
    } else {
        match status {
            Some(s) => seq![s],
            None => seq!["No recent activity"@],
        }
    }
}

/// Decide which lines to display in the empty state, based on whether
/// the user still needs to configure a token and on any active status.
pub fn empty_state_lines(needs_setup: bool, status: Option<&str>) -> (r: Vec<String>)
    ensures
        crate::text::views(r@) == empty_lines(needs_setup, crate::client::opt_str(status)),
{
    let mut v: Vec<String> = Vec::new();
    if needs_setup {
        v.push(String::from_str("gh-monitor"));
        v.push(String::new());
        v.push(String::from_str("No personal access token set."));
        v.push(String::from_str("Run one of:"));
        v.push(String::from_str("  gh-monitor config edit"));
        v.push(String::from_str("  GH_MONITOR_PAT=ghp_... gh-monitor"));
    } else {
        match status {
            Some(s) => v.push(String::from_str(s)),
            None => v.push(String::from_str("No recent activity")),
        }
    }
    assert(crate::text::views(v@) =~= empty_lines(needs_setup, crate::client::opt_str(status)));
    v
}

/// Decide what text to show in the status banner: the status itself.
pub fn status_banner_text(text: &str) -> (r: &str)
    ensures
        r@ == text@,
{
    text
}

/// The repo's page on GitHub.
pub fn url_for_repo(repo: &str) -> (r: String)
    ensures
        r@ == "https://github.com/"@ + repo@,
{
    String::from_str("https://github.com/").concat(repo)
}

/// The visual class of a node.
#[derive(Debug, Clone, Copy, PartialEq, Eq, Structural)]
pub enum NodeClass {
    Group,
    Standalone,
}

impl NodeClass {
    /// The class of a node of kind `kind`.
    pub fn from_node_kind(kind: NodeKind) -> (r: Self)
        ensures
            r == (match kind {
                NodeKind::Group => NodeClass::Group,
                NodeKind::Standalone => NodeClass::Standalone,
            }),
    {
        match kind {
            NodeKind::Group => NodeClass::Group,
            NodeKind::Standalone => NodeClass::Standalone,
        }
    }
}

/// The singular and plural words for a kind.
pub open spec fn kind_words(kind: EventKind) -> (Seq<char>, Seq<char>) {
    match kind {
        EventKind::PrOpened => ("PR opened"@, "PRs opened"@),
        EventKind::PrMerged => ("PR merged"@, "PRs merged"@),
        EventKind::IssueOpened => ("issue opened"@, "issues opened"@),
        EventKind::ReleasePublished => ("release"@, "releases"@),
        EventKind::RepoCreated => ("new repo"@, "new repos"@),
    }
}

/// `{count} {word}`, the word singular for a count of one.
pub open spec fn pair_text(kind: EventKind, count: u32) -> Seq<char> {
    crate::text::decimal(count as nat) + " "@ + if count == 1 { kind_words(kind).0 } else { kind_words(kind).1 }
}

/// The label of a `(kind, count)` pair, e.g. "3 PRs opened".
pub fn pair_label(kind: EventKind, count: u32) -> (r: String)
    ensures
        r@ == pair_text(kind, count),
{
    let (singular, plural) = match kind {
        EventKind::PrOpened => ("PR opened", "PRs opened"),
        EventKind::PrMerged => ("PR merged", "PRs merged"),
        EventKind::IssueOpened => ("issue opened", "issues opened"),
        EventKind::ReleasePublished => ("release", "releases"),
        EventKind::RepoCreated => ("new repo", "new repos"),
    };
    let word = if count == 1 { singular } else { plural };
    u64_to_decimal(count as u64).concat(" ").concat(word)
}

/// Hover-driven passthrough state: when the cursor is over the overlay,
/// input is captured; when it leaves, input passes through.
#[derive(Debug, Clone, Copy, PartialEq, Eq, Structural)]
pub enum OverlayState {
    /// Cursor is outside the overlay. Clicks pass through.
    Idle,
    /// Cursor is over the overlay. Clicks are captured.
    Active,
}

impl Default for OverlayState {
    fn default() -> (r: Self)
        ensures
            r == OverlayState::Idle,
    {
        OverlayState::Idle
    }
}

impl OverlayState {
    /// Whether the overlay should be in passthrough mode right now.
    pub fn is_passthrough(&self) -> (r: bool)
        ensures
            r == (*self == OverlayState::Idle),
    {
        match self {
            OverlayState::Idle => true,
            OverlayState::Active => false,
        }
    }
}

/// Menu actions the tray can emit.
#[derive(Debug, Clone, Copy, PartialEq, Eq, Structural)]
pub enum TrayAction {
    /// Toggle the overlay window's visibility.
    ToggleVisible,
    /// Quit the app.
    Quit,
}

/// The user-facing items in the context menu, in display order.
#[derive(Debug, Clone, Copy, PartialEq, Eq, Structural)]
pub enum MenuItem {
    /// Open the in-pane settings panel.
    Settings,
    /// Toggle the overlay window's visibility.
    ShowHide,
    /// Fire an immediate force-poll, ignoring the regular interval.
    RefreshNow,
    /// Visual divider row. No click target, no hover.
    Separator,
    /// Toggle the in-app Doctor diagnostics page.
    Doctor,
    /// Toggle the About page.
    About,
    /// Quit the app.
    Quit,
}

/// The label of a menu row.
pub open spec fn menu_label(m: MenuItem) -> Seq<char> {
    match m {
        MenuItem::Settings => "Settings…"@,
        MenuItem::ShowHide => "Show / Hide"@,
        MenuItem::RefreshNow => "Refresh now"@,
        MenuItem::Doctor => "Doctor…"@,
        MenuItem::About => "About"@,
        MenuItem::Quit => "Quit"@,
        MenuItem::Separator => ""@,
    }
}

impl MenuItem {
    /// Human-readable label for the menu row. Empty for separators.
    pub fn label(self) -> (r: &'static str)
        ensures
            r@ == menu_label(self),
    {
        match self {
            MenuItem::Settings => "Settings…",
            MenuItem::ShowHide => "Show / Hide",
            MenuItem::RefreshNow => "Refresh now",
            MenuItem::Doctor => "Doctor…",
            MenuItem::About => "About",
            MenuItem::Quit => "Quit",
            MenuItem::Separator => "",
        }
    }

    /// `true` for the visual divider rows. Separators have no click
    /// target and cannot be hovered.
    pub fn is_separator(self) -> (r: bool)
        ensures
            r == (self == MenuItem::Separator),
    {
        match self {
            MenuItem::Separator => true,
            _ => false,
        }
    }
}

/// The default menu, in display order.
pub open spec fn menu_items() -> Seq<MenuItem> {
    seq![
        MenuItem::Settings,
        MenuItem::ShowHide,
        MenuItem::RefreshNow,
        MenuItem::Separator,
        MenuItem::Doctor,
        MenuItem::About,
        MenuItem::Separator,
        MenuItem::Quit
    ]
}

/// The default set of items, in display order. The renderer iterates
/// this list top-to-bottom.
pub fn default_items() -> (r: Vec<MenuItem>)
    ensures
        r@ == menu_items(),
{
    let r = vec![
        MenuItem::Settings,
        MenuItem::ShowHide,
        MenuItem::RefreshNow,
        MenuItem::Separator,
        MenuItem::Doctor,
        MenuItem::About,
        MenuItem::Separator,
        MenuItem::Quit,
    ];
    assert(r@ =~= menu_items());
    r
}

/// Another instance holds the single-instance lock at `path`.
#[derive(Debug, Clone, PartialEq, Eq)]
pub struct AlreadyRunning {
    /// The lock file's path, as displayed.
    pub path: String,
}

impl AlreadyRunning {
    /// The error's message, as its `Display` writes it.
    pub fn message(&self) -> (r: String)
        ensures
            r@ == "another instance of gh-monitor is already running; lock: "@ + self.path@,
    {
        String::from_str("another instance of gh-monitor is already running; lock: ").concat(self.path.as_str())
    }
}


proof fn lemma_kind_words()
    ensures
        forall|k1: EventKind, k2: EventKind| k1 != k2 ==> kind_words(k1).0 != kind_words(k2).0 && kind_words(k1).1
            != kind_words(k2).1,
        "merged"@.is_suffix_of(kind_words(EventKind::PrMerged).0),
        "merged"@.is_suffix_of(kind_words(EventKind::PrMerged).1),
{
    reveal_strlit("PR opened");
    reveal_strlit("PRs opened");
    reveal_strlit("PR merged");
    reveal_strlit("PRs merged");
    reveal_strlit("issue opened");
    reveal_strlit("issues opened");
    reveal_strlit("release");
    reveal_strlit("releases");
    reveal_strlit("new repo");
    reveal_strlit("new repos");
    reveal_strlit("merged");
    assert("PR opened"@.len() == 9 && "PR merged"@.len() == 9 && "issue opened"@.len() == 12);
    assert("release"@.len() == 7 && "new repo"@.len() == 8);
    assert("PRs opened"@.len() == 10 && "PRs merged"@.len() == 10 && "issues opened"@.len() == 13);
    assert("releases"@.len() == 8 && "new repos"@.len() == 9);
    assert("PR opened"@[3] != "PR merged"@[3]);
    assert("PRs opened"@[4] != "PRs merged"@[4]);
    assert("merged"@.len() == 6);
    assert("merged"@ =~= "PR merged"@.subrange(3, 9));
    assert("merged"@ =~= "PRs merged"@.subrange(4, 10));
}

/// Law: a pair's label names its own kind. It reads `{count} ` and then a
/// word that differs from every other kind's word for the same count, so
/// no two kinds share a label; a merged pull request's label ends in
/// "merged" in the singular and the plural alike.
pub proof fn law_pair_label_names_kind(k1: EventKind, k2: EventKind, count: u32)
    ensures
        (crate::text::decimal(count as nat) + " "@).is_prefix_of(pair_text(k1, count)),
        k1 != k2 ==> pair_text(k1, count) != pair_text(k2, count),
        "merged"@.is_suffix_of(pair_text(EventKind::PrMerged, count)),
{
    lemma_kind_words();
    reveal_strlit("merged");
    let p = crate::text::decimal(count as nat) + " "@;
    let w1 = if count == 1 { kind_words(k1).0 } else { kind_words(k1).1 };
    let w2 = if count == 1 { kind_words(k2).0 } else { kind_words(k2).1 };
    assert(pair_text(k1, count) == p + w1);
    assert(pair_text(k2, count) == p + w2);
    assert((p + w1).subrange(0, p.len() as int) =~= p);
    if k1 != k2 && pair_text(k1, count) == pair_text(k2, count) {
        assert((p + w1).skip(p.len() as int) =~= w1);
        assert((p + w2).skip(p.len() as int) =~= w2);
    }
    let wm = if count == 1 { kind_words(EventKind::PrMerged).0 } else { kind_words(EventKind::PrMerged).1 };
    let t = p + wm;
    assert("merged"@.is_suffix_of(wm));
    assert(wm.len() >= 6);
    assert(t.subrange(t.len() - 6, t.len() as int) =~= wm.subrange(wm.len() - 6, wm.len() as int));
}

} // verus!
