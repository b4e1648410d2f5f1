//! The overlay's state machine: what each message (a poll cycle, hover,
//! window moves, quitting) does to the state, and which action the
//! application then performs. Times are whole milliseconds on a monotonic
//! clock (`now_ms`) and the wall-clock instant `now`.
use vstd::prelude::*;
use crate::client::{ClientError, ClientErrorView, client_error_text};
use crate::compress::{compress, compressed, CompressionConfig};
use crate::config::{Config, ConfigView, WindowPosition};
use crate::events::{RawEvent, EventView};
use crate::group::{group_by_repo, grouped, lemma_group_sizes};
use crate::order::vals;
use crate::snapshot::{TimelineSnapshot, TimelineView, NodeId, diff, diff_of, timeline_node_of, has_id};
use crate::status::{PollStatus, StatusView, KindView, recorded, record_all, is_auth_error, client_error_banner};
use crate::polling::rate_limit_text;
use crate::present::{OverlayState, TrayAction};
use crate::text::{is_blank, str_is_blank};

verus! {

/// The minimum interval, in milliseconds, between two config writes
/// triggered by window moves.
pub const POSITION_SAVE_DEBOUNCE_MS: u64 = 500;

/// Whether a window move at `now` should write the config, given when
/// the last write happened: always when there was none, else once the
/// debounce interval has passed since it.
pub open spec fn save_due(now: int, last: Option<int>) -> bool {
    match last {
        None => true,
        Some(t) => now >= t && now - t >= POSITION_SAVE_DEBOUNCE_MS,
    }
}

/// Decide whether a window move should trigger a disk write given the
/// time of the last successful save.
pub fn should_save_position(now: u64, last: Option<u64>) -> (r: bool)
    ensures
        r == save_due(now as int, match last {
            Some(t) => Some(t as int),
            None => None,
        }),
{
    match last {
        None => true,
        Some(t) => now >= t && now - t >= POSITION_SAVE_DEBOUNCE_MS,
    }
}

/// The ids of `evs`.
pub open spec fn ids_of(evs: Seq<EventView>) -> Seq<Seq<char>> {
    evs.map_values(|e: EventView| e.id)
}

/// `evs` with each id kept once, at its first occurrence.
pub open spec fn deduped(evs: Seq<EventView>) -> Seq<EventView>
    decreases evs.len(),
{
    if evs.len() == 0 {
        Seq::empty()
    } else {
        let p = deduped(evs.drop_last());
        if ids_of(p).contains(evs.last().id) { p } else { p.push(evs.last()) }
    }
}

proof fn lemma_deduped_len(evs: Seq<EventView>)
    ensures
        deduped(evs).len() <= evs.len(),
    decreases evs.len(),
{
    if evs.len() > 0 {
        lemma_deduped_len(evs.drop_last());
    }
}

/// Deduplicate events by their GitHub `id`. The first occurrence wins.
pub fn dedupe_events(events: Vec<RawEvent>) -> (r: Vec<RawEvent>)
    ensures
        vals(r@) == deduped(vals(events@)),
{
    let ghost evs = vals(events@);
    let n = events.len();
    let mut out: Vec<RawEvent> = Vec::new();
    let mut i: usize = 0;
    assert(evs.take(0) =~= Seq::<EventView>::empty());
    while i < n
        invariant
            n == events@.len(),
            evs == vals(events@),
            i <= n,
            vals(out@) == deduped(evs.take(i as int)),
        decreases n - i,
    {
        assert(evs.take(i + 1).drop_last() =~= evs.take(i as int));
        assert(evs.take(i + 1).last() == events@[i as int]@);
        let m = out.len();
        let mut j: usize = 0;
        let mut seen = false;
        while j < m
            invariant
                m == out@.len(),
                i < n,
                n == events@.len(),
                j <= m,
                !seen ==> forall|k: int| 0 <= k < j ==> out@[k].id@ != events@[i as int].id@,
                seen ==> ids_of(vals(out@)).contains(events@[i as int].id@),
            decreases m - j,
        {
            if !seen && out[j].id == events[i].id {
                seen = true;
                assert(ids_of(vals(out@))[j as int] == events@[i as int].id@);
            }
            j = j + 1;
        }
        if !seen {
            assert(!ids_of(vals(out@)).contains(events@[i as int].id@)) by {
                if ids_of(vals(out@)).contains(events@[i as int].id@) {
                    let k = choose|k: int| 0 <= k < ids_of(vals(out@)).len() && ids_of(vals(out@))[k] == events@[i as int].id@;
                    assert(out@[k].id@ == ids_of(vals(out@))[k]);
                }
            }
            let e = events[i].copy();
            let ghost before = out@;
            out.push(e);
            assert(vals(out@) =~= vals(before).push(e@));
        }
        i = i + 1;
    }
    assert(evs.take(n as int) =~= evs);
    out
}

/// The snapshot of the events `evs` at the Unix time `now`: deduplicated,
/// grouped by repo, compressed with the default configuration, labelled.
pub open spec fn snapshot_of(evs: Seq<EventView>, now: int) -> Seq<TimelineView> {
    compressed(grouped(deduped(evs)), CompressionConfig { window_secs: 10800i64, max_pairs_per_node: 3usize }).map_values(
        |n: crate::compress::NodeView| timeline_node_of(n, now),
    )
}

/// Build the snapshot of `events` as seen at the Unix time `now`.
pub fn rebuild_snapshot(events: Vec<RawEvent>, now: i128) -> (r: TimelineSnapshot)
    requires
        events@.len() <= u32::MAX,
    ensures
        vals(r.nodes@) == snapshot_of(vals(events@), now as int),
{
    proof {
        lemma_deduped_len(vals(events@));
    }
    let events = dedupe_events(events);
    let groups = group_by_repo(events);
    proof {
        lemma_group_sizes(vals(events@));
        assert forall|i: int| 0 <= i < groups@.len() implies #[trigger] groups@[i].events@.len() <= u32::MAX by {
            assert(vals(groups@)[i] == groups@[i]@);
        }
    }
    let cfg = CompressionConfig { window_secs: 10800, max_pairs_per_node: 3 };
    let nodes = compress(groups.as_slice(), &cfg);
    TimelineSnapshot::from_compressed(nodes, now)
}

/// Which node animations to start, pulse and drop after a rebuild.
#[derive(Debug)]
pub struct AnimPlan {
    /// Nodes that get a fresh fade-in.
    pub insert: Vec<NodeId>,
    /// Nodes whose running animation gets a pulse.
    pub pulse: Vec<NodeId>,
    /// Animations of nodes that are gone.
    pub remove: Vec<NodeId>,
}

/// The ids among `ids` for which `keep` holds, in order.
pub open spec fn ids_where(ids: Seq<Seq<char>>, animated: Seq<Seq<char>>, inside: bool) -> Seq<Seq<char>>
    decreases ids.len(),
{
    if ids.len() == 0 {
        Seq::empty()
    } else {
        let p = ids_where(ids.drop_last(), animated, inside);
        if animated.contains(ids.last()) == inside { p.push(ids.last()) } else { p }
    }
}

/// The animated ids that no node of `snap` has, in order.
pub open spec fn gone_ids(animated: Seq<Seq<char>>, snap: Seq<TimelineView>) -> Seq<Seq<char>>
    decreases animated.len(),
{
    if animated.len() == 0 {
        Seq::empty()
    } else {
        let p = gone_ids(animated.drop_last(), snap);
        if has_id(snap, animated.last()) { p } else { p.push(animated.last()) }
    }
}

fn ids_containing(ids: &Vec<NodeId>, x: &NodeId) -> (r: bool)
    ensures
        r == vals(ids@).contains(x@),
{
    let n = ids.len();
    let mut j: usize = 0;
    while j < n
        invariant
            n == ids@.len(),
            j <= n,
            forall|k: int| 0 <= k < j ==> ids@[k]@ != x@,
        decreases n - j,
    {
        if ids[j].0 == x.0 {
            assert(vals(ids@)[j as int] == x@);
            return true;
        }
        j = j + 1;
    }
    assert(!vals(ids@).contains(x@)) by {
        if vals(ids@).contains(x@) {
            let k = choose|k: int| 0 <= k < vals(ids@).len() && vals(ids@)[k] == x@;
            assert(ids@[k]@ == x@);
        }
    }
    false
}

fn select_ids(ids: &Vec<NodeId>, animated: &Vec<NodeId>, inside: bool) -> (r: Vec<NodeId>)
    ensures
        vals(r@) == ids_where(vals(ids@), vals(animated@), inside),
{
    let ghost s = vals(ids@);
    let n = ids.len();
    let mut out: Vec<NodeId> = Vec::new();
    let mut i: usize = 0;
    assert(s.take(0) =~= Seq::<Seq<char>>::empty());
    while i < n
        invariant
            n == ids@.len(),
            s == vals(ids@),
            i <= n,
            vals(out@) == ids_where(s.take(i as int), vals(animated@), inside),
        decreases n - i,
    {
        assert(s.take(i + 1).drop_last() =~= s.take(i as int));
        assert(s.take(i + 1).last() == ids@[i as int]@);
        if ids_containing(animated, &ids[i]) == inside {
            let ghost before = out@;
            out.push(ids[i].copy());
            assert(vals(out@) =~= vals(before).push(ids@[i as int]@));
        }
        i = i + 1;
    }
    assert(s.take(n as int) =~= s);
    out
}

fn snapshot_has(snap: &TimelineSnapshot, id: &NodeId) -> (r: bool)
    ensures
        r == has_id(vals(snap.nodes@), id@),
{
    proof {
        crate::snapshot::lemma_has_id_scan(vals(snap.nodes@), id@);
    }
    let n = snap.nodes.len();
    let mut j: usize = 0;
    while j < n
        invariant
            n == snap.nodes@.len(),
            j <= n,
            has_id(vals(snap.nodes@), id@) <==> exists|k: int| 0 <= k < n && vals(snap.nodes@)[k].id == id@,
            forall|k: int| 0 <= k < j ==> vals(snap.nodes@)[k].id != id@,
        decreases n - j,
    {
        assert(vals(snap.nodes@)[j as int] == snap.nodes@[j as int]@);
        if snap.nodes[j].id.0 == id.0 {
            return true;
        }
        j = j + 1;
    }
    false
}

/// Plan the animations after a rebuild: added nodes fade in; updated
/// nodes pulse when they are animated already and fade in otherwise;
/// animations of nodes no longer in `snap` are dropped.
pub fn anim_plan(added: &Vec<NodeId>, updated: &Vec<NodeId>, animated: &Vec<NodeId>, snap: &TimelineSnapshot) -> (r: AnimPlan)
    ensures
        vals(r.insert@) == vals(added@) + ids_where(vals(updated@), vals(animated@), false),
        vals(r.pulse@) == ids_where(vals(updated@), vals(animated@), true),
        vals(r.remove@) == gone_ids(vals(animated@), vals(snap.nodes@)),
{
    let mut insert: Vec<NodeId> = Vec::new();
    let n = added.len();
    let mut i: usize = 0;
    while i < n
        invariant
            n == added@.len(),
            i <= n,
            insert@.len() == i,
            forall|k: int| 0 <= k < i ==> (#[trigger] insert@[k])@ == added@[k]@,
        decreases n - i,
    {
        insert.push(added[i].copy());
        i = i + 1;
    }
    assert(vals(insert@) =~= vals(added@));
    let mut fresh = select_ids(updated, animated, false);
    let ghost a = vals(insert@);
    let ghost f = vals(fresh@);
    insert.append(&mut fresh);
    assert(vals(insert@) =~= a + f);
    let pulse = select_ids(updated, animated, true);
    let ghost s = vals(animated@);
    let m = animated.len();
    let mut remove: Vec<NodeId> = Vec::new();
    let mut j: usize = 0;
    assert(s.take(0) =~= Seq::<Seq<char>>::empty());
    while j < m
        invariant
            m == animated@.len(),
            s == vals(animated@),
            j <= m,
            vals(remove@) == gone_ids(s.take(j as int), vals(snap.nodes@)),
        decreases m - j,
    {
        assert(s.take(j + 1).drop_last() =~= s.take(j as int));
        assert(s.take(j + 1).last() == animated@[j as int]@);
        if !snapshot_has(snap, &animated[j]) {
            let ghost before = remove@;
            remove.push(animated[j].copy());
            assert(vals(remove@) =~= vals(before).push(animated@[j as int]@));
        }
        j = j + 1;
    }
    assert(s.take(m as int) =~= s);
    AnimPlan { insert, pulse, remove }
}

/// The overlay's state, as the application holds it beside its window
/// handles, animations and canvas.
#[derive(Debug)]
pub struct OverlayCore {
    pub config: Config,
    pub snapshot: TimelineSnapshot,
    pub overlay: OverlayState,
    /// When a window move last wrote the config (milliseconds).
    pub last_position_save_at: Option<u64>,
    /// A window move arrived but its write was throttled; quitting
    /// writes it.
    pub config_save_pending: bool,
    /// Whether the cursor has entered the overlay at least once. Until it
    /// has, the overlay stays `Active` so the user can interact with it
    /// on first launch.
    pub has_hovered: bool,
    /// Whether the window is hidden.
    pub hidden: bool,
    pub poll_status: PollStatus,
    /// When the last poll cycle arrived (milliseconds).
    pub last_poll_at: Option<u64>,
    /// Whether the window's id is known.
    pub has_window: bool,
}

/// The value of an [`OverlayCore`].
pub struct CoreView {
    pub config: ConfigView,
    pub snapshot: Seq<TimelineView>,
    pub overlay: OverlayState,
    pub last_save: Option<int>,
    pub pending: bool,
    pub has_hovered: bool,
    pub hidden: bool,
    pub poll_status: Seq<StatusView>,
    pub last_poll: Option<int>,
    pub has_window: bool,
}

/// The value of an optional time.
pub open spec fn time_view(t: Option<u64>) -> Option<int> {
    match t {
        Some(x) => Some(x as int),
        None => None,
    }
}

impl View for OverlayCore {
    type V = CoreView;

    open spec fn view(&self) -> CoreView {
        CoreView {
            config: self.config@,
            snapshot: vals(self.snapshot.nodes@),
            overlay: self.overlay,
            last_save: time_view(self.last_position_save_at),
            pending: self.config_save_pending,
            has_hovered: self.has_hovered,
            hidden: self.hidden,
            poll_status: self.poll_status@,
            last_poll: time_view(self.last_poll_at),
            has_window: self.has_window,
        }
    }
}

/// A message to the overlay.
#[derive(Debug)]
pub enum OverlayEvent {
    /// A poll cycle completed: every polled source with its events, and
    /// the sources that failed with their errors.
    PolledCycle { events: Vec<(String, Vec<RawEvent>)>, errors: Vec<(String, ClientError)> },
    /// Cursor entered the overlay.
    HoverEntered,
    /// Cursor left the overlay.
    HoverLeft,
    /// Open a URL in the browser.
    OpenUrl(String),
    /// The window's id became known.
    WindowResolved,
    /// The window was moved to this position.
    WindowMoved { x: i32, y: i32 },
    /// The user pressed a non-clickable area: drag the window.
    DragWindow,
    /// Escape pressed: quit.
    Escape,
    /// F5 pressed: refresh now.
    Refresh,
    /// The tray menu fired an action.
    Tray(TrayAction),
}

/// What the application does after a message.
#[derive(Debug)]
pub enum OverlayAction {
    /// Nothing.
    Nothing,
    /// The snapshot was rebuilt: apply the animation plan and redraw.
    Rebuilt(AnimPlan),
    /// Capture the mouse.
    DisablePassthrough,
    /// Let clicks pass through.
    EnablePassthrough,
    /// Open this URL in the browser.
    OpenUrl(String),
    /// Write this config in the background.
    SaveConfig(Config),
    /// Start dragging the window.
    Drag,
    /// Quit, first writing this config when there is one.
    Exit(Option<Config>),
    /// Hide (true) or show (false) the window.
    SetHidden(bool),
}

/// The value of an [`OverlayAction`].
pub enum ActionView {
    Nothing,
    Rebuilt { insert: Seq<Seq<char>>, pulse: Seq<Seq<char>>, remove: Seq<Seq<char>> },
    DisablePassthrough,
    EnablePassthrough,
    OpenUrl(Seq<char>),
    SaveConfig(ConfigView),
    Drag,
    Exit(Option<ConfigView>),
    SetHidden(bool),
}

impl View for OverlayAction {
    type V = ActionView;

    open spec fn view(&self) -> ActionView {
        match self {
            OverlayAction::Nothing => ActionView::Nothing,
            OverlayAction::Rebuilt(p) => ActionView::Rebuilt {
                insert: vals(p.insert@),
                pulse: vals(p.pulse@),
                remove: vals(p.remove@),
            },
            OverlayAction::DisablePassthrough => ActionView::DisablePassthrough,
            OverlayAction::EnablePassthrough => ActionView::EnablePassthrough,
            OverlayAction::OpenUrl(u) => ActionView::OpenUrl(u@),
            OverlayAction::SaveConfig(c) => ActionView::SaveConfig(c@),
            OverlayAction::Drag => ActionView::Drag,
            OverlayAction::Exit(c) => ActionView::Exit(match c {
                Some(x) => Some(x@),
                None => None,
            }),
            OverlayAction::SetHidden(h) => ActionView::SetHidden(*h),
        }
    }
}

/// The state and action after a message other than a poll cycle.
pub open spec fn step(s: CoreView, e: OverlayEvent, now: int) -> (CoreView, ActionView) {
    match e {
        OverlayEvent::HoverEntered => (
            CoreView { overlay: OverlayState::Active, has_hovered: true, ..s },
            if s.has_window { ActionView::DisablePassthrough } else { ActionView::Nothing },
        ),
        OverlayEvent::HoverLeft => if s.has_hovered {
            (
                CoreView { overlay: OverlayState::Idle, ..s },
                if s.has_window { ActionView::EnablePassthrough } else { ActionView::Nothing },
            )
        } else {
            (s, ActionView::Nothing)
        },
        OverlayEvent::OpenUrl(u) => (
            s,
            if crate::link::openable(u@) { ActionView::OpenUrl(u@) } else { ActionView::Nothing },
        ),
        OverlayEvent::WindowResolved => (CoreView { has_window: true, ..s }, ActionView::DisablePassthrough),
        OverlayEvent::WindowMoved { x, y } => {
            let c = ConfigView { window_position: Some(WindowPosition { x: x, y: y }), ..s.config };
            if save_due(now, s.last_save) {
                (CoreView { config: c, last_save: Some(now), pending: false, ..s }, ActionView::SaveConfig(c))
            } else {
                (CoreView { config: c, pending: true, ..s }, ActionView::Nothing)
            }
        },
        OverlayEvent::DragWindow => (s, if s.has_window { ActionView::Drag } else { ActionView::Nothing }),
        OverlayEvent::Refresh => (s, ActionView::Nothing),
        OverlayEvent::Tray(TrayAction::ToggleVisible) => if s.has_window {
            (CoreView { hidden: !s.hidden, ..s }, ActionView::SetHidden(!s.hidden))
        } else {
            (s, ActionView::Nothing)
        },
        _ => if s.pending {
            (CoreView { pending: false, last_save: Some(now), ..s }, ActionView::Exit(Some(s.config)))
        } else {
            (s, ActionView::Exit(None))
        },
    }
}

/// The banner a client error gives in the status: a rate limit's
/// friendly text, the message of other errors (of which, for a transport
/// error, only the prefix is known).
pub open spec fn banner_ok(e: ClientErrorView, m: Seq<char>) -> bool {
    match e {
        ClientErrorView::RateLimited { reset_at } => m == rate_limit_text(reset_at),
        ClientErrorView::Http => "HTTP error: "@.is_prefix_of(m),
        _ => m == client_error_text(e),
    }
}

/// The status kind a source's error is recorded with: an auth error for
/// `Unauthorized` and `RateLimited`, a transient error otherwise, each
/// with the error's banner.
pub open spec fn error_kind_ok(e: ClientErrorView, k: KindView) -> bool {
    if e is Unauthorized || e is RateLimited {
        k matches KindView::AuthError(m) && banner_ok(e, m)
    } else {
        k matches KindView::Error(m) && banner_ok(e, m)
    }
}

/// `s` after recording each of `sources` as healthy, in order.
pub open spec fn record_all_ok(s: Seq<StatusView>, sources: Seq<Seq<char>>) -> Seq<StatusView>
    decreases sources.len(),
{
    if sources.len() == 0 {
        s
    } else {
        recorded(record_all_ok(s, sources.drop_last()), sources.last(), KindView::Healthy)
    }
}

/// The events of a cycle's entries, source after source.
pub open spec fn cycle_events(entries: Seq<(Seq<char>, Seq<EventView>)>) -> Seq<EventView>
    decreases entries.len(),
{
    if entries.len() == 0 {
        Seq::empty()
    } else {
        cycle_events(entries.drop_last()) + entries.last().1
    }
}

/// The cycle's entries as values.
pub open spec fn cycle_entries(es: Seq<(String, Vec<RawEvent>)>) -> Seq<(Seq<char>, Seq<EventView>)> {
    es.map_values(|e: (String, Vec<RawEvent>)| (e.0@, vals(e.1@)))
}

/// The sources of the cycle's failures.
pub open spec fn error_sources(es: Seq<(String, ClientError)>) -> Seq<Seq<char>> {
    es.map_values(|e: (String, ClientError)| e.0@)
}

/// The plan the animations follow after a rebuild from `prev` to `next`
/// with `animated` nodes animated.
pub open spec fn plan_for(prev: Seq<TimelineView>, next: Seq<TimelineView>, animated: Seq<Seq<char>>) -> ActionView {
    let d = diff_of(prev, next);
    ActionView::Rebuilt {
        insert: d.0 + ids_where(d.1, animated, false),
        pulse: ids_where(d.1, animated, true),
        remove: gone_ids(animated, next),
    }
}

proof fn lemma_cycle_events_len(es: Seq<(Seq<char>, Seq<EventView>)>, i: int)
    requires
        0 <= i <= es.len(),
    ensures
        cycle_events(es.take(i)).len() <= cycle_events(es).len(),
    decreases es.len() - i,
{
    if i < es.len() {
        lemma_cycle_events_len(es, i + 1);
        assert(es.take(i + 1).drop_last() =~= es.take(i));
    } else {
        assert(es.take(i) =~= es);
    }
}

impl OverlayCore {
    /// The state at start-up with config `config`: no snapshot, the
    /// overlay `Active` until the first hover, nothing polled or saved.
    pub fn new(config: Config) -> (r: Self)
        ensures
            r@.config == config@,
            r@.snapshot.len() == 0,
            r@.overlay == OverlayState::Active,
            r@.last_save is None,
            !r@.pending,
            !r@.has_hovered,
            !r@.hidden,
            r@.poll_status.len() == 0,
            r@.last_poll is None,
            !r@.has_window,
    {
        let r = OverlayCore {
            config,
            snapshot: TimelineSnapshot::default(),
            overlay: OverlayState::Active,
            last_position_save_at: None,
            config_save_pending: false,
            has_hovered: false,
            hidden: false,
            poll_status: PollStatus::default(),
            last_poll_at: None,
            has_window: false,
        };
        assert(r@.snapshot.len() == r.snapshot.nodes@.len());
        r
    }

    /// Whether the user still needs to set a token.
    pub fn needs_setup(&self) -> (r: bool)
        ensures
            r == is_blank(self@.config.pat),
    {
        str_is_blank(self.config.pat.as_str())
    }

    fn apply_cycle(&mut self, events: Vec<(String, Vec<RawEvent>)>, errors: Vec<(String, ClientError)>, now_ms: u64, now: i128, animated: &Vec<NodeId>) -> (a: OverlayAction)
        requires
            cycle_events(cycle_entries(events@)).len() <= u32::MAX,
        ensures
            final(self)@.last_poll == Some(now_ms as int),
            exists|kinds: Seq<KindView>| #[trigger] cycle_recorded(old(self)@.poll_status, cycle_entries(events@), errors@, kinds, final(self)@.poll_status),
            final(self)@.snapshot == snapshot_of(cycle_events(cycle_entries(events@)), now as int),
            a@ == plan_for(old(self)@.snapshot, final(self)@.snapshot, vals(animated@)),
            final(self)@.config == old(self)@.config,
            final(self)@.overlay == old(self)@.overlay,
            final(self)@.last_save == old(self)@.last_save,
            final(self)@.pending == old(self)@.pending,
            final(self)@.has_hovered == old(self)@.has_hovered,
            final(self)@.hidden == old(self)@.hidden,
            final(self)@.has_window == old(self)@.has_window,
    {
        let ghost ents = cycle_entries(events@);
        let ghost srcs = ents.map_values(|e: (Seq<char>, Seq<EventView>)| e.0);
        let ghost ps0 = self@.poll_status;
        self.last_poll_at = Some(now_ms);
        let mut all: Vec<RawEvent> = Vec::new();
        let n = events.len();
        let mut i: usize = 0;
        assert(ents.take(0) =~= Seq::<(Seq<char>, Seq<EventView>)>::empty());
        assert(srcs.take(0) =~= Seq::<Seq<char>>::empty());
        while i < n
            invariant
                n == events@.len(),
                ents == cycle_entries(events@),
                srcs == ents.map_values(|e: (Seq<char>, Seq<EventView>)| e.0),
                i <= n,
                vals(all@) == cycle_events(ents.take(i as int)),
                self.poll_status@ == record_all_ok(ps0, srcs.take(i as int)),
                self.last_poll_at == Some(now_ms),
                ps0 == old(self)@.poll_status,
                self@.config == old(self)@.config,
                self@.snapshot == old(self)@.snapshot,
                self@.overlay == old(self)@.overlay,
                self@.last_save == old(self)@.last_save,
                self@.pending == old(self)@.pending,
                self@.has_hovered == old(self)@.has_hovered,
                self@.hidden == old(self)@.hidden,
                self@.has_window == old(self)@.has_window,

            decreases n - i,
        {
            assert(ents.take(i + 1).drop_last() =~= ents.take(i as int));
            assert(srcs.take(i + 1).drop_last() =~= srcs.take(i as int));
            assert(ents[i as int] == (events@[i as int].0@, vals(events@[i as int].1@)));
            assert(srcs[i as int] == events@[i as int].0@);
            self.poll_status.record_ok(events[i].0.as_str());
            let m = events[i].1.len();
            let mut j: usize = 0;
            let ghost before = vals(all@);
            while j < m
                invariant
                    i < n,
                    n == events@.len(),
                    m == events@[i as int].1@.len(),
                    j <= m,
                    vals(all@) == before + vals(events@[i as int].1@).take(j as int),
                decreases m - j,
            {
                let e = events[i].1[j].copy();
                let ghost o = all@;
                all.push(e);
                assert(vals(all@) =~= vals(o).push(e@));
                assert(vals(events@[i as int].1@).take(j + 1) =~= vals(events@[i as int].1@).take(j as int).push(e@));
                j = j + 1;
            }
            assert(vals(events@[i as int].1@).take(m as int) =~= vals(events@[i as int].1@));
            i = i + 1;
        }
        assert(ents.take(n as int) =~= ents);
        assert(srcs.take(n as int) =~= srcs);
        let ghost mid = self.poll_status@;
        let ghost esrc = error_sources(errors@);
        let ghost mut kinds: Seq<KindView> = Seq::empty();
        let m = errors.len();
        let mut k: usize = 0;
        assert(labelled(esrc, kinds) =~= Seq::<(Seq<char>, KindView)>::empty());
        while k < m
            invariant
                m == errors@.len(),
                esrc == error_sources(errors@),
                k <= m,
                kinds.len() == k,
                forall|t: int| 0 <= t < k ==> error_kind_ok(#[trigger] errors@[t].1@, kinds[t]),
                self.poll_status@ == record_all(mid, labelled(esrc, kinds)),
                mid == record_all_ok(ps0, ents.map_values(|e: (Seq<char>, Seq<EventView>)| e.0)),
                vals(all@) == cycle_events(ents),
                ents == cycle_entries(events@),
                self.last_poll_at == Some(now_ms),
                ps0 == old(self)@.poll_status,
                self@.config == old(self)@.config,
                self@.snapshot == old(self)@.snapshot,
                self@.overlay == old(self)@.overlay,
                self@.last_save == old(self)@.last_save,
                self@.pending == old(self)@.pending,
                self@.has_hovered == old(self)@.has_hovered,
                self@.hidden == old(self)@.hidden,
                self@.has_window == old(self)@.has_window,
            decreases m - k,
        {
            let err = &errors[k].1;
            let msg = client_error_banner(err);
            let ghost kd: KindView;
            if is_auth_error(err) {
                proof {
                    kd = KindView::AuthError(msg@);
                }
                self.poll_status.record_auth_error(errors[k].0.as_str(), msg);
            } else {
                proof {
                    kd = KindView::Error(msg@);
                }
                self.poll_status.record_error(errors[k].0.as_str(), msg);
            }
            proof {
                let old_kinds = kinds;
                kinds = kinds.push(kd);
                assert(labelled(esrc, kinds).drop_last() =~= labelled(esrc, old_kinds));
                assert(esrc[k as int] == errors@[k as int].0@);
                assert forall|t: int| 0 <= t < k + 1 implies error_kind_ok(#[trigger] errors@[t].1@, kinds[t]) by {
                    if t < k {
                        assert(kinds[t] == old_kinds[t]);
                    }
                }
            }
            k = k + 1;
        }
        assert(cycle_recorded(ps0, ents, errors@, kinds, self@.poll_status));
        proof {
            lemma_cycle_events_len(ents, n as int);
        }
        let new_snap = rebuild_snapshot(all, now);
        let d = diff(&self.snapshot, &new_snap);
        let plan = anim_plan(&d.added, &d.updated, animated, &new_snap);
        self.snapshot = new_snap;
        assert(cycle_recorded(old(self)@.poll_status, cycle_entries(events@), errors@, kinds, self@.poll_status));
        OverlayAction::Rebuilt(plan)
    }
}

/// The status after a cycle: every polled source recorded healthy, in
/// order, then each failed source recorded with the kind `kinds` gives
/// its error, which [`error_kind_ok`] allows.
pub open spec fn cycle_recorded(
    before: Seq<StatusView>,
    entries: Seq<(Seq<char>, Seq<EventView>)>,
    errors: Seq<(String, ClientError)>,
    kinds: Seq<KindView>,
    after: Seq<StatusView>,
) -> bool {
    &&& kinds.len() == errors.len()
    &&& forall|t: int| 0 <= t < kinds.len() ==> error_kind_ok(#[trigger] errors[t].1@, kinds[t])
    &&& after == record_all(
        record_all_ok(before, entries.map_values(|e: (Seq<char>, Seq<EventView>)| e.0)),
        labelled(error_sources(errors), kinds),
    )
}

/// Each source paired with the kind at the same position.
pub open spec fn labelled(sources: Seq<Seq<char>>, kinds: Seq<KindView>) -> Seq<(Seq<char>, KindView)> {
    Seq::new(kinds.len(), |i: int| (sources[i], kinds[i]))
}

impl OverlayCore {
    /// Handle one message at the monotonic time `now_ms` (and the Unix
    /// instant `now`, with `animated` the nodes that have an
    /// animation), and say what the application is to do.
    pub fn update(&mut self, event: OverlayEvent, now_ms: u64, now: i128, animated: &Vec<NodeId>) -> (a: OverlayAction)
        requires
            event matches OverlayEvent::PolledCycle { events, errors } ==> cycle_events(cycle_entries(events@)).len()
                <= u32::MAX,
        ensures
            match event {
                OverlayEvent::PolledCycle { events, errors } => {
                    &&& final(self)@.last_poll == Some(now_ms as int)
                    &&& exists|kinds: Seq<KindView>| #[trigger] cycle_recorded(old(self)@.poll_status, cycle_entries(events@), errors@, kinds, final(self)@.poll_status)
                    &&& final(self)@.snapshot == snapshot_of(cycle_events(cycle_entries(events@)), now as int)
                    &&& a@ == plan_for(old(self)@.snapshot, final(self)@.snapshot, vals(animated@))
                    &&& final(self)@ == CoreView {
                        last_poll: final(self)@.last_poll,
                        poll_status: final(self)@.poll_status,
                        snapshot: final(self)@.snapshot,
                        ..old(self)@
                    }
                },
                _ => (final(self)@, a@) == step(old(self)@, event, now_ms as int),
            },
    {
        match event {
            OverlayEvent::PolledCycle { events, errors } => self.apply_cycle(events, errors, now_ms, now, animated),
            OverlayEvent::HoverEntered => {
                self.overlay = OverlayState::Active;
                self.has_hovered = true;
                if self.has_window { OverlayAction::DisablePassthrough } else { OverlayAction::Nothing }
            },
            OverlayEvent::HoverLeft => {
                if self.has_hovered {
                    self.overlay = OverlayState::Idle;
                    if self.has_window { OverlayAction::EnablePassthrough } else { OverlayAction::Nothing }
                } else {
                    OverlayAction::Nothing
                }
            },
            OverlayEvent::OpenUrl(url) => {
                if crate::link::may_open(url.as_str()) { OverlayAction::OpenUrl(url) } else { OverlayAction::Nothing }
            },
            OverlayEvent::WindowResolved => {
                self.has_window = true;
                OverlayAction::DisablePassthrough
            },
            OverlayEvent::WindowMoved { x, y } => {
                self.config.window_position = Some(WindowPosition { x, y });
                if should_save_position(now_ms, self.last_position_save_at) {
                    self.last_position_save_at = Some(now_ms);
                    self.config_save_pending = false;
                    OverlayAction::SaveConfig(self.config.copy())
                } else {
                    self.config_save_pending = true;
                    OverlayAction::Nothing
                }
            },
            OverlayEvent::DragWindow => {
                if self.has_window { OverlayAction::Drag } else { OverlayAction::Nothing }
            },
            OverlayEvent::Refresh => OverlayAction::Nothing,
            OverlayEvent::Tray(TrayAction::ToggleVisible) => {
                if self.has_window {
                    self.hidden = !self.hidden;
                    OverlayAction::SetHidden(self.hidden)
                } else {
                    OverlayAction::Nothing
                }
            },
            _ => {
                if self.config_save_pending {
                    self.config_save_pending = false;
                    self.last_position_save_at = Some(now_ms);
                    OverlayAction::Exit(Some(self.config.copy()))
                } else {
                    OverlayAction::Exit(None)
                }
            },
        }
    }
}

/// Law: before the cursor has ever entered the overlay, leaving it changes
/// nothing: the overlay stays `Active` so it can be used on first launch.
pub proof fn law_first_launch_stays_active(s: CoreView, now: int)
    requires
        !s.has_hovered,
    ensures
        step(s, OverlayEvent::HoverLeft, now) == (s, ActionView::Nothing),
{
}

/// Law: entering and then leaving the overlay (once its window is known)
/// captures the mouse and then lets clicks pass through again.
pub proof fn law_hover_round_trip(s: CoreView, now: int)
    requires
        s.has_window,
    ensures
        step(s, OverlayEvent::HoverEntered, now).1 == ActionView::DisablePassthrough,
        step(s, OverlayEvent::HoverEntered, now).0.overlay == OverlayState::Active,
        step(step(s, OverlayEvent::HoverEntered, now).0, OverlayEvent::HoverLeft, now).1 == ActionView::EnablePassthrough,
        step(step(s, OverlayEvent::HoverEntered, now).0, OverlayEvent::HoverLeft, now).0.overlay == OverlayState::Idle,
{
}

/// Law: window moves write the config at most once per debounce interval:
/// a move that writes comes at least `POSITION_SAVE_DEBOUNCE_MS` after the
/// previous write, and then records its own time as the last write.
pub proof fn law_position_saves_debounced(s: CoreView, x: i32, y: i32, now: int)
    requires
        step(s, OverlayEvent::WindowMoved { x, y }, now).1 is SaveConfig,
    ensures
        s.last_save matches Some(t) ==> now - t >= POSITION_SAVE_DEBOUNCE_MS,
        step(s, OverlayEvent::WindowMoved { x, y }, now).0.last_save == Some(now),
{
}

/// Law: no move is lost: when a move's write was throttled, quitting
/// (by Escape or from the tray) writes the config with that position.
pub proof fn law_quit_flushes_throttled_move(s: CoreView, x: i32, y: i32, now: int, later: int)
    requires
        step(s, OverlayEvent::WindowMoved { x, y }, now).1 is Nothing,
    ensures
        step(step(s, OverlayEvent::WindowMoved { x, y }, now).0, OverlayEvent::Escape, later).1
            matches ActionView::Exit(Some(c)) && c.window_position == Some(WindowPosition { x: x, y: y }),
        step(step(s, OverlayEvent::WindowMoved { x, y }, now).0, OverlayEvent::Tray(TrayAction::Quit), later).1
            matches ActionView::Exit(Some(c)) && c.window_position == Some(WindowPosition { x: x, y: y }),
{
}

/// Law: toggling visibility twice from the tray restores it.
pub proof fn law_toggle_twice_restores(s: CoreView, now: int)
    ensures
        step(step(s, OverlayEvent::Tray(TrayAction::ToggleVisible), now).0, OverlayEvent::Tray(TrayAction::ToggleVisible), now).0 == s,
{
}

proof fn lemma_deduped_ids(evs: Seq<EventView>)
    ensures
        ids_of(deduped(evs)).no_duplicates(),
        forall|x: Seq<char>| ids_of(deduped(evs)).contains(x) <==> ids_of(evs).contains(x),
    decreases evs.len(),
{
    if evs.len() > 0 {
        let d = evs.drop_last();
        lemma_deduped_ids(d);
        let p = deduped(d);
        let e = evs.last();
        assert(ids_of(evs) =~= ids_of(d).push(e.id));
        if !ids_of(p).contains(e.id) {
            assert(ids_of(p.push(e)) =~= ids_of(p).push(e.id));
            assert forall|x: Seq<char>| ids_of(p.push(e)).contains(x) <==> ids_of(evs).contains(x) by {
                if ids_of(p.push(e)).contains(x) && x != e.id {
                    let k = choose|k: int| 0 <= k < ids_of(p.push(e)).len() && ids_of(p.push(e))[k] == x;
                    assert(ids_of(p)[k] == x);
                }
                if ids_of(evs).contains(x) && x != e.id {
                    let k = choose|k: int| 0 <= k < ids_of(evs).len() && ids_of(evs)[k] == x;
                    assert(ids_of(d)[k] == x);
                    assert(ids_of(d).contains(x));
                    assert(ids_of(p).contains(x));
                    let j = choose|j: int| 0 <= j < ids_of(p).len() && ids_of(p)[j] == x;
                    assert(ids_of(p.push(e))[j] == x);
                }
                if x == e.id {
                    assert(ids_of(p.push(e))[p.len() as int] == x);
                    assert(ids_of(evs)[d.len() as int] == x);
                }
                if ids_of(p).contains(x) {
                    let j = choose|j: int| 0 <= j < ids_of(p).len() && ids_of(p)[j] == x;
                    assert(ids_of(d).contains(x));
                    let k = choose|k: int| 0 <= k < ids_of(d).len() && ids_of(d)[k] == x;
                    assert(ids_of(evs)[k] == x);
                }
            }
        } else {
            assert forall|x: Seq<char>| ids_of(p).contains(x) <==> ids_of(evs).contains(x) by {
                if ids_of(evs).contains(x) {
                    let k = choose|k: int| 0 <= k < ids_of(evs).len() && ids_of(evs)[k] == x;
                    if k < d.len() {
                        assert(ids_of(d)[k] == x);
                        assert(ids_of(d).contains(x));
                    } else {
                        assert(x == e.id);
                    }
                }
                if ids_of(p).contains(x) {
                    assert(ids_of(d).contains(x));
                    let k = choose|k: int| 0 <= k < ids_of(d).len() && ids_of(d)[k] == x;
                    assert(ids_of(evs)[k] == x);
                }
            }
        }
    }
}

/// Law: deduplication keeps each id exactly once: the result holds no
/// id twice, and exactly the ids of the input.
pub proof fn law_dedupe_ids(evs: Seq<EventView>)
    ensures
        ids_of(deduped(evs)).no_duplicates(),
        forall|x: Seq<char>| ids_of(deduped(evs)).contains(x) <==> ids_of(evs).contains(x),
{
    lemma_deduped_ids(evs);
}

} // verus!
