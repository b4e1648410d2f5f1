//! Demo mode: a scripted sequence of fake GitHub events, replayed one per
//! second so that every animation path can be seen. Times are whole
//! milliseconds on a monotonic clock; event times are instants (see `time`).
use vstd::prelude::*;
use crate::events::{EventKind, RawEvent, EventView, url_text, parse_url};
use crate::order::vals;
use crate::text::{decimal, u64_to_decimal};
use crate::time::{SECOND, subsec_nanos};

verus! {

/// Total demo window, in seconds.
pub const DEMO_TOTAL_SECS: u64 = 120;

/// The scripted events: repo, kind, age in seconds, title and link.
pub open spec fn script_entry(i: int) -> (Seq<char>, EventKind, int, Option<Seq<char>>, Option<Seq<char>>) {
    if i == 0 {
        ("rust-lang/rust"@, EventKind::PrOpened, 60, Some("Stabilize u64::div_ceil"@), Some("https://github.com/rust-lang/rust/pull/1"@))
    } else if i == 1 {
        ("tokio-rs/tokio"@, EventKind::PrOpened, 50, Some("Improve scheduler fairness"@), Some("https://github.com/tokio-rs/tokio/pull/100"@))
    } else if i == 2 {
        ("rust-lang/rust"@, EventKind::PrOpened, 40, Some("Add Iterator::map_while"@), Some("https://github.com/rust-lang/rust/pull/2"@))
    } else if i == 3 {
        ("rust-lang/rust"@, EventKind::PrOpened, 30, Some("Remove deprecated feature"@), Some("https://github.com/rust-lang/rust/pull/3"@))
    } else if i == 4 {
        ("rust-lang/rust"@, EventKind::PrMerged, 20, Some("Fix borrowck NLL bug"@), Some("https://github.com/rust-lang/rust/pull/4"@))
    } else if i == 5 {
        ("acme-corp/secret-project"@, EventKind::RepoCreated, 10, None, None)
    } else if i == 6 {
        ("tokio-rs/tokio"@, EventKind::IssueOpened, 8, Some("Scheduler panic on overflow"@), Some("https://github.com/tokio-rs/tokio/issues/50"@))
    } else if i == 7 {
        ("serde-rs/serde"@, EventKind::ReleasePublished, 5, Some("serde-1.0.215"@), Some("https://github.com/serde-rs/serde/releases/tag/v1.0.215"@))
    } else if i == 8 {
        ("rust-lang/rust"@, EventKind::IssueOpened, 3, Some("Compiler panic on infinite loop"@), Some("https://github.com/rust-lang/rust/issues/5"@))
    } else {
        ("tokio-rs/tokio"@, EventKind::PrOpened, 1, Some("Reduce allocation in mpsc::Sender"@), Some("https://github.com/tokio-rs/tokio/pull/101"@))
    }
}

/// The `i`th scripted event as created at the Unix time `now`.
pub open spec fn script_event(i: int, now: int) -> EventView {
    let e = script_entry(i);
    EventView {
        id: "demo-"@ + decimal((i + 1) as nat),
        kind: e.1,
        repo: e.0,
        created_at: now - e.2 * 4294967296,
        title: e.3,
        url: match e.4 {
            Some(u) => url_text(u),
            None => None,
        },
    }
}

/// The value of a [`DemoState`]: its start, its schedule (each entry's
/// time and events) and the position of the next entry to fire.
pub struct DemoView {
    pub started_at: int,
    pub schedule: Seq<(int, Seq<EventView>)>,
    pub next: int,
}

/// State for a running demo: the schedule and a cursor for the next
/// entry to fire.
#[derive(Debug)]
pub struct DemoState {
    started_at: u64,
    events: Vec<(u64, Vec<RawEvent>)>,
    next_idx: usize,
}

impl DemoState {
    /// The cursor never passes the end of the schedule.
    #[verifier::type_invariant]
    spec fn cursor_in_schedule(self) -> bool {
        self.next_idx <= self.events@.len()
    }
}

impl View for DemoState {
    type V = DemoView;

    closed spec fn view(&self) -> DemoView {
        DemoView {
            started_at: self.started_at as int,
            schedule: self.events@.map_values(|e: (u64, Vec<RawEvent>)| (e.0 as int, vals(e.1@))),
            next: self.next_idx as int,
        }
    }
}

/// The events of the schedule's entries `from..to`, in order.
pub open spec fn entries_events(s: Seq<(int, Seq<EventView>)>, from: int, to: int) -> Seq<EventView>
    decreases to - from,
{
    if to <= from {
        Seq::empty()
    } else {
        entries_events(s, from, to - 1) + s[to - 1].1
    }
}

/// The position after the run of entries from `from` on whose time is at
/// most `now`.
pub open spec fn due_end(s: Seq<(int, Seq<EventView>)>, from: int, now: int) -> int
    decreases s.len() - from,
{
    if from < 0 || from >= s.len() || s[from].0 > now {
        from
    } else {
        due_end(s, from + 1, now)
    }
}

fn make_event(i: u64, repo: &str, kind: EventKind, created_at: i128, title: Option<&str>, url: Option<&str>) -> (r: RawEvent)
    requires
        i < 10,
    ensures
        r@ == (EventView {
            id: "demo-"@ + decimal((i + 1) as nat),
            kind: kind,
            repo: repo@,
            created_at: created_at as int,
            title: crate::client::opt_str(title),
            url: match crate::client::opt_str(url) {
                Some(u) => url_text(u),
                None => None,
            },
        }),
{
    let id = String::from_str("demo-").concat(u64_to_decimal(i + 1).as_str());
    let title = match title {
        Some(t) => Some(String::from_str(t)),
        None => None,
    };
    let url = match url {
        Some(u) => parse_url(u),
        None => None,
    };
    RawEvent { id, kind, repo_full_name: String::from_str(repo), created_at, title, url }
}

impl DemoState {
    /// Build a demo state started at the monotonic time `started_at`
    /// (milliseconds), with events created relative to the Unix time
    /// `now`, a wall-clock instant (never inside a leap second). Entry `i` fires `i + 1` seconds after the start.
    pub fn new_at(started_at: u64, now: i128) -> (r: Self)
        requires
            started_at <= u64::MAX - 10_000,
            now >= i128::MIN + 60 * 4294967296,
            subsec_nanos(now as int) < 1_000_000_000,
        ensures
            r@.started_at == started_at,
            r@.next == 0,
            r@.schedule.len() == 10,
            forall|i: int| 0 <= i < 10 ==> #[trigger] r@.schedule[i] == (
                started_at + (i + 1) * 1000,
                seq![script_event(i, now as int)],
            ),
    {
        let mut events: Vec<(u64, Vec<RawEvent>)> = Vec::new();
        let mut i: u64 = 0;
        while i < 10
            invariant
                started_at <= u64::MAX - 10_000,
                now >= i128::MIN + 60 * 4294967296,
                subsec_nanos(now as int) < 1_000_000_000,
                i <= 10,
                events@.len() == i,
                forall|k: int| 0 <= k < i ==> (#[trigger] events@[k]).0 == started_at + (k + 1) * 1000
                    && vals(events@[k].1@) == seq![script_event(k, now as int)],
            decreases 10 - i,
        {
            let ev = if i == 0 {
                make_event(i, "rust-lang/rust", EventKind::PrOpened, now - 60 * SECOND, Some("Stabilize u64::div_ceil"), Some("https://github.com/rust-lang/rust/pull/1"))
            } else if i == 1 {
                make_event(i, "tokio-rs/tokio", EventKind::PrOpened, now - 50 * SECOND, Some("Improve scheduler fairness"), Some("https://github.com/tokio-rs/tokio/pull/100"))
            } else if i == 2 {
                make_event(i, "rust-lang/rust", EventKind::PrOpened, now - 40 * SECOND, Some("Add Iterator::map_while"), Some("https://github.com/rust-lang/rust/pull/2"))
            } else if i == 3 {
                make_event(i, "rust-lang/rust", EventKind::PrOpened, now - 30 * SECOND, Some("Remove deprecated feature"), Some("https://github.com/rust-lang/rust/pull/3"))
            } else if i == 4 {
                make_event(i, "rust-lang/rust", EventKind::PrMerged, now - 20 * SECOND, Some("Fix borrowck NLL bug"), Some("https://github.com/rust-lang/rust/pull/4"))
            } else if i == 5 {
                make_event(i, "acme-corp/secret-project", EventKind::RepoCreated, now - 10 * SECOND, None, None)
            } else if i == 6 {
                make_event(i, "tokio-rs/tokio", EventKind::IssueOpened, now - 8 * SECOND, Some("Scheduler panic on overflow"), Some("https://github.com/tokio-rs/tokio/issues/50"))
            } else if i == 7 {
                make_event(i, "serde-rs/serde", EventKind::ReleasePublished, now - 5 * SECOND, Some("serde-1.0.215"), Some("https://github.com/serde-rs/serde/releases/tag/v1.0.215"))
            } else if i == 8 {
                make_event(i, "rust-lang/rust", EventKind::IssueOpened, now - 3 * SECOND, Some("Compiler panic on infinite loop"), Some("https://github.com/rust-lang/rust/issues/5"))
            } else {
                make_event(i, "tokio-rs/tokio", EventKind::PrOpened, now - 1 * SECOND, Some("Reduce allocation in mpsc::Sender"), Some("https://github.com/tokio-rs/tokio/pull/101"))
            };
            assert(ev@ == script_event(i as int, now as int));
            let mut batch: Vec<RawEvent> = Vec::new();
            batch.push(ev);
            assert(vals(batch@) =~= seq![script_event(i as int, now as int)]);
            events.push((started_at + (i + 1) * 1000, batch));
            i = i + 1;
        }
        let r = DemoState { started_at, events, next_idx: 0 };
        assert forall|k: int| 0 <= k < 10 implies #[trigger] r@.schedule[k] == (
            started_at + (k + 1) * 1000,
            seq![script_event(k, now as int)],
        ) by {
            assert(r@.schedule[k] == (r.events@[k].0 as int, vals(r.events@[k].1@)));
        }
        r
    }

    /// Drain all entries whose scheduled time is `<= now`, from the next
    /// one on, and return their events in order. The cursor moves past
    /// them, so a later call does not emit them again.
    pub fn drain_due(&mut self, now: u64) -> (r: Vec<RawEvent>)
        ensures
            final(self)@.started_at == old(self)@.started_at,
            final(self)@.schedule == old(self)@.schedule,
            final(self)@.next == due_end(old(self)@.schedule, old(self)@.next, now as int),
            vals(r@) == entries_events(old(self)@.schedule, old(self)@.next, final(self)@.next),
    {
        proof {
            use_type_invariant(&*self);
        }
        let ghost s = self@.schedule;
        let ghost start = self@.next;
        let mut out: Vec<RawEvent> = Vec::new();
        let n = self.events.len();
        assert(vals(out@) =~= entries_events(s, start, start));
        while self.next_idx < n && self.events[self.next_idx].0 <= now
            invariant
                n == self.events@.len(),
                s == self@.schedule,
                start <= self.next_idx <= n,
                due_end(s, start, now as int) == due_end(s, self.next_idx as int, now as int),
                vals(out@) == entries_events(s, start, self.next_idx as int),
                self@.started_at == old(self)@.started_at,
                start == old(self)@.next,
                s == old(self)@.schedule,
            decreases n - self.next_idx,
        {
            let k = self.next_idx;
            assert(s[k as int] == (self.events@[k as int].0 as int, vals(self.events@[k as int].1@)));
            let m = self.events[k].1.len();
            let mut j: usize = 0;
            let ghost before = vals(out@);
            while j < m
                invariant
                    k < n,
                    n == self.events@.len(),
                    m == self.events@[k as int].1@.len(),
                    j <= m,
                    vals(out@) == before + vals(self.events@[k as int].1@).take(j as int),
                decreases m - j,
            {
                let e = self.events[k].1[j].copy();
                let ghost o = out@;
                out.push(e);
                assert(vals(out@) =~= vals(o).push(e@));
                assert(vals(self.events@[k as int].1@).take(j + 1) =~= vals(self.events@[k as int].1@).take(
                    j as int,
                ).push(e@));
                j = j + 1;
            }
            assert(vals(self.events@[k as int].1@).take(m as int) =~= vals(self.events@[k as int].1@));
            self.next_idx = k + 1;
            assert(self@.schedule == s);
        }
        assert(due_end(s, self.next_idx as int, now as int) == self.next_idx as int) by {
            if self.next_idx < n {
                assert(s[self.next_idx as int].0 > now);
            }
        }
        out
    }

    /// Seconds remaining in the demo at `now` (clamped to 0). A time
    /// before the start counts as no time elapsed.
    pub fn remaining_secs(&self, now: u64) -> (r: u64)
        ensures
            r == (if now < self@.started_at {
                DEMO_TOTAL_SECS as int
            } else if (now - self@.started_at) / 1000 >= DEMO_TOTAL_SECS {
                0
            } else {
                DEMO_TOTAL_SECS - (now - self@.started_at) / 1000
            }),
    {
        let elapsed: u64 = if now < self.started_at { 0 } else { (now - self.started_at) / 1000 };
        DEMO_TOTAL_SECS.saturating_sub(elapsed)
    }

    /// `true` when the demo window has elapsed and the state should be
    /// cleared.
    pub fn is_complete(&self, now: u64) -> (r: bool)
        ensures
            r == (now >= self@.started_at && (now - self@.started_at) / 1000 >= DEMO_TOTAL_SECS),
    {
        self.remaining_secs(now) == 0
    }

    /// Total number of scheduled entries.
    pub fn len(&self) -> (r: usize)
        ensures
            r == self@.schedule.len(),
    {
        self.events.len()
    }
}

proof fn lemma_due_end_bounds(s: Seq<(int, Seq<EventView>)>, from: int, now: int)
    requires
        0 <= from <= s.len(),
    ensures
        from <= due_end(s, from, now) <= s.len(),
        forall|k: int| from <= k < due_end(s, from, now) ==> (#[trigger] s[k]).0 <= now,
        due_end(s, from, now) < s.len() ==> s[due_end(s, from, now)].0 > now,
    decreases s.len() - from,
{
    if from < s.len() && s[from].0 <= now {
        lemma_due_end_bounds(s, from + 1, now);
    }
}

proof fn lemma_entries_split(s: Seq<(int, Seq<EventView>)>, a: int, b: int, c: int)
    requires
        a <= b <= c,
    ensures
        entries_events(s, a, c) == entries_events(s, a, b) + entries_events(s, b, c),
    decreases c - b,
{
    if b < c {
        lemma_entries_split(s, a, b, c - 1);
        assert(entries_events(s, a, c) == entries_events(s, a, c - 1) + s[c - 1].1);
        assert(entries_events(s, b, c) == entries_events(s, b, c - 1) + s[c - 1].1);
        assert(entries_events(s, a, b) + entries_events(s, b, c) =~= (entries_events(s, a, b) + entries_events(s, b, c - 1)) + s[c - 1].1);
    } else {
        assert(entries_events(s, a, b) + entries_events(s, b, c) =~= entries_events(s, a, b));
    }
}

proof fn lemma_due_end_later(s: Seq<(int, Seq<EventView>)>, from: int, t1: int, t2: int)
    requires
        0 <= from <= s.len(),
        t1 <= t2,
    ensures
        due_end(s, due_end(s, from, t1), t2) == due_end(s, from, t2),
    decreases s.len() - from,
{
    if from < s.len() && s[from].0 <= t1 {
        lemma_due_end_later(s, from + 1, t1, t2);
    }
}

/// Law: draining is never repeated and never skips: draining at `t1` and
/// then at a later `t2` emits, together and in order, exactly what one
/// drain at `t2` would have emitted, and leaves the cursor at the same
/// place.
pub proof fn law_drains_compose(s: Seq<(int, Seq<EventView>)>, from: int, t1: int, t2: int)
    requires
        0 <= from <= s.len(),
        t1 <= t2,
    ensures
        due_end(s, due_end(s, from, t1), t2) == due_end(s, from, t2),
        entries_events(s, from, due_end(s, from, t1)) + entries_events(s, due_end(s, from, t1), due_end(
            s,
            due_end(s, from, t1),
            t2,
        )) == entries_events(s, from, due_end(s, from, t2)),
{
    lemma_due_end_later(s, from, t1, t2);
    lemma_due_end_bounds(s, from, t1);
    let e1 = due_end(s, from, t1);
    lemma_due_end_bounds(s, e1, t2);
    lemma_entries_split(s, from, e1, due_end(s, from, t2));
}

} // verus!
