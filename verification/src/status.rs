//! Per-source poll status and the status banner built from it.
use vstd::prelude::*;
use crate::client::{ClientError, ClientErrorView, client_error_text};
use crate::polling::{rate_limit_banner, rate_limit_text};
use crate::text::{strip_prefix_str, decimal, u64_to_decimal};

verus! {

/// What state a source is in.
#[derive(Debug, Clone, PartialEq, Eq)]
pub enum SourceStatusKind {
    /// The source was polled and returned events (or no events). Clears
    /// the status banner for this source.
    Healthy,
    /// Transient error from this source (server error, network, rate
    /// limit). Polling continues.
    Error(String),
    /// Fatal auth error from this source. The PAT is wrong or expired.
    AuthError(String),
}

/// One source's poll status.
#[derive(Debug, Clone, PartialEq, Eq)]
pub struct SourceStatus {
    /// Source label (e.g. `"received"`, `"org/rust-lang"`,
    /// `"repo/octocat/Hello-World"`).
    pub source: String,
    pub kind: SourceStatusKind,
}

/// The value of a [`SourceStatusKind`].
pub enum KindView {
    Healthy,
    Error(Seq<char>),
    AuthError(Seq<char>),
}

/// The value of a [`SourceStatus`].
pub struct StatusView {
    pub source: Seq<char>,
    pub kind: KindView,
}

impl View for SourceStatus {
    type V = StatusView;

    open spec fn view(&self) -> StatusView {
        StatusView {
            source: self.source@,
            kind: kind_view(self.kind),
        }
    }
}

/// The value of a [`SourceStatusKind`].
pub open spec fn kind_view(k: SourceStatusKind) -> KindView {
    match k {
        SourceStatusKind::Healthy => KindView::Healthy,
        SourceStatusKind::Error(m) => KindView::Error(m@),
        SourceStatusKind::AuthError(m) => KindView::AuthError(m@),
    }
}

/// Per-source poll status, in the order the sources were last updated.
/// The most recently updated source is at the back.
#[derive(Debug, Clone, PartialEq, Eq)]
pub struct PollStatus {
    sources: Vec<SourceStatus>,
}

impl View for PollStatus {
    type V = Seq<StatusView>;

    closed spec fn view(&self) -> Seq<StatusView> {
        crate::order::vals(self.sources@)
    }
}

impl Default for PollStatus {
    fn default() -> (r: Self)
        ensures
            r@.len() == 0,
    {
        let r = PollStatus { sources: Vec::new() };
        assert(r@ =~= Seq::<StatusView>::empty());
        r
    }
}

/// `s` without the entries of `source`.
pub open spec fn without_source(s: Seq<StatusView>, source: Seq<char>) -> Seq<StatusView>
    decreases s.len(),
{
    if s.len() == 0 {
        Seq::empty()
    } else {
        let p = without_source(s.drop_last(), source);
        if s.last().source == source { p } else { p.push(s.last()) }
    }
}

/// `s` with `source`'s entry replaced by a new one of kind `kind` at the
/// back.
pub open spec fn recorded(s: Seq<StatusView>, source: Seq<char>, kind: KindView) -> Seq<StatusView> {
    without_source(s, source).push(StatusView { source: source, kind: kind })
}

impl PollStatus {
    fn record(&mut self, source: &str, kind: SourceStatusKind)
        ensures
            final(self)@ == recorded(old(self)@, source@, kind_view(kind)),
    {
        let ghost s = self@;
        let mut kept: Vec<SourceStatus> = Vec::new();
        let mut rest = Vec::new();
        std::mem::swap(&mut rest, &mut self.sources);
        let n = rest.len();
        let mut i: usize = 0;
        assert(s.take(0) =~= Seq::<StatusView>::empty());
        while i < n
            invariant
                n == rest@.len(),
                s == crate::order::vals(rest@),
                i <= n,
                crate::order::vals(kept@) == without_source(s.take(i as int), source@),
            decreases n - i,
        {
            assert(s.take(i + 1).drop_last() =~= s.take(i as int));
            assert(s.take(i + 1).last() == rest@[i as int]@);
            if !crate::text::str_eq(rest[i].source.as_str(), source) {
                let ghost before = kept@;
                kept.push(rest[i].clone_status());
                assert(crate::order::vals(kept@) =~= crate::order::vals(before).push(rest@[i as int]@));
            }
            i = i + 1;
        }
        assert(s.take(n as int) =~= s);
        let ghost before = kept@;
        let entry = SourceStatus { source: String::from_str(source), kind };
        kept.push(entry);
        assert(crate::order::vals(kept@) =~= crate::order::vals(before).push(entry@));
        self.sources = kept;
    }

    /// Record a successful poll from `source`. Moves an existing entry for
    /// the same source to the back, so it becomes the most-recent.
    pub fn record_ok(&mut self, source: &str)
        ensures
            final(self)@ == recorded(old(self)@, source@, KindView::Healthy),
    {
        self.record(source, SourceStatusKind::Healthy);
    }

    /// Record a transient error from `source`.
    pub fn record_error(&mut self, source: &str, msg: String)
        ensures
            final(self)@ == recorded(old(self)@, source@, KindView::Error(msg@)),
    {
        self.record(source, SourceStatusKind::Error(msg));
    }

    /// Record a fatal auth error from `source`.
    pub fn record_auth_error(&mut self, source: &str, msg: String)
        ensures
            final(self)@ == recorded(old(self)@, source@, KindView::AuthError(msg@)),
    {
        self.record(source, SourceStatusKind::AuthError(msg));
    }

    /// Number of sources tracked.
    pub fn len(&self) -> (r: usize)
        ensures
            r == self@.len(),
    {
        self.sources.len()
    }

    /// `true` if no sources have been polled yet.
    pub fn is_empty(&self) -> (r: bool)
        ensures
            r == (self@.len() == 0),
    {
        self.sources.len() == 0
    }

    /// Iterate the per-source statuses (oldest first, most recent last).
    pub fn iter(&self) -> (r: std::slice::Iter<'_, SourceStatus>)
        ensures
            crate::order::vals(vstd::std_specs::slice::into_iter_elts(r)) == self@,
    {
        self.sources.as_slice().iter()
    }

    /// The status of the `i`th source (oldest first).
    pub fn get(&self, i: usize) -> (r: &SourceStatus)
        requires
            i < self@.len(),
        ensures
            r@ == self@[i as int],
    {
        &self.sources[i]
    }
}

impl SourceStatus {
    /// A copy of this status with the same value.
    pub fn clone_status(&self) -> (r: SourceStatus)
        ensures
            r@ == self@,
    {
        let kind = match &self.kind {
            SourceStatusKind::Healthy => SourceStatusKind::Healthy,
            SourceStatusKind::Error(m) => SourceStatusKind::Error(m.clone()),
            SourceStatusKind::AuthError(m) => SourceStatusKind::AuthError(m.clone()),
        };
        SourceStatus { source: self.source.clone(), kind }
    }
}

/// A source label with its `org/` or `repo/` prefix removed for display.
pub open spec fn shown_source(source: Seq<char>) -> Seq<char> {
    if "org/"@.is_prefix_of(source) {
        source.skip("org/"@.len() as int)
    } else if "repo/"@.is_prefix_of(source) {
        source.skip("repo/"@.len() as int)
    } else {
        source
    }
}

/// Strip the `org/` or `repo/` prefix from a source label for display.
pub fn display_source(source: &str) -> (r: String)
    ensures
        r@ == shown_source(source@),
{
    match strip_prefix_str(source, "org/") {
        Some(s) => s,
        None => match strip_prefix_str(source, "repo/") {
            Some(s) => s,
            None => String::from_str(source),
        },
    }
}

/// The entries of `s` that are not `Healthy`, in order.
pub open spec fn errored(s: Seq<StatusView>) -> Seq<StatusView>
    decreases s.len(),
{
    if s.len() == 0 {
        Seq::empty()
    } else {
        let p = errored(s.drop_last());
        if s.last().kind is Healthy { p } else { p.push(s.last()) }
    }
}

/// The message of a non-`Healthy` status.
pub open spec fn kind_message(k: KindView) -> Seq<char> {
    match k {
        KindView::Healthy => Seq::empty(),
        KindView::Error(m) => m,
        KindView::AuthError(m) => m,
    }
}

/// The banner for a poll status: nothing when no source has failed (or
/// nothing was polled yet); `<source>: <message>` when exactly one has;
/// `polling (<ok>/<total> ok)` when two or more have.
pub open spec fn poll_banner(s: Seq<StatusView>) -> Option<Seq<char>> {
    let e = errored(s);
    if s.len() == 0 || e.len() == 0 {
        None
    } else if e.len() == 1 {
        Some(shown_source(e[0].source) + ": "@ + kind_message(e[0].kind))
    } else {
        Some("polling ("@ + decimal((s.len() - e.len()) as nat) + "/"@ + decimal(s.len() as nat) + " ok)"@)
    }
}

proof fn lemma_errored_len(s: Seq<StatusView>)
    ensures
        errored(s).len() <= s.len(),
    decreases s.len(),
{
    if s.len() > 0 {
        lemma_errored_len(s.drop_last());
    }
}

/// Format the per-source status for the canvas banner. Returns `None`
/// when nothing noteworthy has happened (no errors, or no polls yet).
pub fn format_poll_status(status: &PollStatus) -> (r: Option<String>)
    ensures
        crate::events::opt_view(r) == poll_banner(status@),
{
    if status.is_empty() {
        return None;
    }
    let ghost s = status@;
    let n = status.len();
    let mut count: usize = 0;
    let mut first: Option<usize> = None;
    let mut i: usize = 0;
    assert(s.take(0) =~= Seq::<StatusView>::empty());
    while i < n
        invariant
            n == s.len(),
            s == status@,
            i <= n,
            count == errored(s.take(i as int)).len(),
            count <= i,
            match first {
                Some(k) => k < i && count > 0 && errored(s.take(i as int))[0] == s[k as int],
                None => count == 0,
            },
        decreases n - i,
    {
        assert(s.take(i + 1).drop_last() =~= s.take(i as int));
        let st = status.get(i);
        match &st.kind {
            SourceStatusKind::Healthy => {},
            _ => {
                if first.is_none() {
                    first = Some(i);
                }
                count = count + 1;
            },
        }
        i = i + 1;
    }
    assert(s.take(n as int) =~= s);
    if count == 0 {
        return None;
    }
    if count == 1 {
        let k = first.unwrap();
        let st = status.get(k);
        let msg = match &st.kind {
            SourceStatusKind::Error(m) => m.clone(),
            SourceStatusKind::AuthError(m) => m.clone(),
            SourceStatusKind::Healthy => String::new(),
        };
        assert(!(s[k as int].kind is Healthy)) by {
            lemma_errored_members(s, 0);
        }
        let shown = display_source(st.source.as_str());
        return Some(shown.concat(": ").concat(msg.as_str()));
    }
    let total = n;
    let ok = total - count;
    let r = String::from_str("polling (").concat(u64_to_decimal(ok as u64).as_str()).concat("/").concat(
        u64_to_decimal(total as u64).as_str(),
    ).concat(" ok)");
    Some(r)
}

proof fn lemma_errored_members(s: Seq<StatusView>, k: int)
    requires
        0 <= k < errored(s).len(),
    ensures
        !(errored(s)[k].kind is Healthy),
    decreases s.len(),
{
    let p = errored(s.drop_last());
    if k < p.len() {
        lemma_errored_members(s.drop_last(), k);
        if !(s.last().kind is Healthy) {
            assert(errored(s)[k] == p[k]);
        }
    }
}

/// `true` when `err` is an auth-class error: the PAT is wrong/expired
/// (`Unauthorized`) or GitHub is throttling the user (`RateLimited`).
/// Everything else (`Server`, `Http`, `Parse`, `Events`) is treated as
/// transient — the poller will keep trying.
pub fn is_auth_error(err: &ClientError) -> (r: bool)
    ensures
        r == (err@ is Unauthorized || err@ is RateLimited),
{
    match err {
        ClientError::Unauthorized(_) => true,
        ClientError::RateLimited { .. } => true,
        _ => false,
    }
}

/// The user-facing banner for a client error: a rate limit gets the
/// friendly "rate-limited until ..." treatment; everything else its
/// message.
pub fn client_error_banner(err: &ClientError) -> (r: String)
    ensures
        err@ matches ClientErrorView::RateLimited { reset_at } ==> r@ == rate_limit_text(reset_at),
        err@ is Http ==> "HTTP error: "@.is_prefix_of(r@),
        !(err@ is Http) && !(err@ is RateLimited) ==> r@ == client_error_text(err@),
{
    match err {
        ClientError::RateLimited { .. } => rate_limit_banner(err),
        other => other.message(),
    }
}

/// No two entries of `s` are for the same source.
pub open spec fn distinct_sources(s: Seq<StatusView>) -> bool {
    forall|i: int, j: int| 0 <= i < j < s.len() ==> (#[trigger] s[i]).source != (#[trigger] s[j]).source
}

proof fn lemma_without_source(s: Seq<StatusView>, src: Seq<char>)
    ensures
        forall|i: int| 0 <= i < without_source(s, src).len() ==> (#[trigger] without_source(s, src)[i]).source != src,
        forall|i: int| 0 <= i < without_source(s, src).len() ==> s.contains(#[trigger] without_source(s, src)[i]),
        distinct_sources(s) ==> distinct_sources(without_source(s, src)),
        distinct_sources(s) ==> without_source(s, src).len() == s.len() - (if exists|k: int| 0 <= k < s.len() && s[k].source == src { 1int } else { 0int }),
    decreases s.len(),
{
    if s.len() > 0 {
        let d = s.drop_last();
        lemma_without_source(d, src);
        let p = without_source(d, src);
        let e = s.last();
        assert forall|i: int| 0 <= i < d.len() implies d[i] == s[i] by {}
        if e.source != src {
            let q = p.push(e);
            assert forall|i: int| 0 <= i < q.len() implies s.contains(#[trigger] q[i]) by {
                if i < p.len() {
                    assert(d.contains(p[i]));
                    let k = choose|k: int| 0 <= k < d.len() && d[k] == p[i];
                    assert(s[k] == p[i]);
                } else {
                    assert(s[s.len() - 1] == e);
                }
            }
            if distinct_sources(s) {
                assert forall|i: int, j: int| 0 <= i < j < q.len() implies (#[trigger] q[i]).source != (#[trigger] q[j]).source by {
                    if j == q.len() - 1 {
                        assert(d.contains(p[i]));
                        let k = choose|k: int| 0 <= k < d.len() && d[k] == p[i];
                        assert(s[k] == p[i]);
                    }
                }
                if exists|k: int| 0 <= k < s.len() && s[k].source == src {
                    let k = choose|k: int| 0 <= k < s.len() && s[k].source == src;
                    assert(k < s.len() - 1);
                    assert(d[k].source == src);
                } else {
                    assert(!exists|k: int| 0 <= k < d.len() && d[k].source == src);
                }
            }
        } else {
            if distinct_sources(s) {
                assert(forall|k: int| 0 <= k < d.len() ==> d[k].source != src);
                assert(!exists|k: int| 0 <= k < d.len() && d[k].source == src);
                assert(s[s.len() - 1].source == src);
            }
        }
    }
}

/// Law: recording a source keeps one entry per source and puts the new
/// entry last: the status grows by one for a new source and keeps its
/// length for a source seen before.
pub proof fn law_record_replaces(s: Seq<StatusView>, src: Seq<char>, kind: KindView)
    requires
        distinct_sources(s),
    ensures
        distinct_sources(recorded(s, src, kind)),
        recorded(s, src, kind).last() == (StatusView { source: src, kind: kind }),
        recorded(s, src, kind).len() == s.len() + (if exists|k: int| 0 <= k < s.len() && s[k].source == src { 0int } else { 1int }),
{
    lemma_without_source(s, src);
    let p = without_source(s, src);
    let r = recorded(s, src, kind);
    assert forall|i: int, j: int| 0 <= i < j < r.len() implies (#[trigger] r[i]).source != (#[trigger] r[j]).source by {
        if j == r.len() - 1 {
            assert(r[i] == p[i]);
        } else {
            assert(r[i] == p[i]);
            assert(r[j] == p[j]);
        }
    }
}

/// `s` after recording each `(source, kind)` of `entries`, in order.
pub open spec fn record_all(s: Seq<StatusView>, entries: Seq<(Seq<char>, KindView)>) -> Seq<StatusView>
    decreases entries.len(),
{
    if entries.len() == 0 {
        s
    } else {
        recorded(record_all(s, entries.drop_last()), entries.last().0, entries.last().1)
    }
}

/// The status after recording each `(source, kind)` of `calls`, in order,
/// starting from no sources (a default [`PollStatus`]).
pub open spec fn status_after(calls: Seq<(Seq<char>, KindView)>) -> Seq<StatusView> {
    record_all(Seq::empty(), calls)
}

/// The index of the last call of `calls` that names `source`; -1 when
/// none does.
pub open spec fn last_call(calls: Seq<(Seq<char>, KindView)>, source: Seq<char>) -> int
    decreases calls.len(),
{
    if calls.len() == 0 {
        -1
    } else if calls.last().0 == source {
        calls.len() - 1
    } else {
        last_call(calls.drop_last(), source)
    }
}

/// The sources the calls name, in order.
pub open spec fn call_sources(calls: Seq<(Seq<char>, KindView)>) -> Seq<Seq<char>> {
    calls.map_values(|c: (Seq<char>, KindView)| c.0)
}

proof fn lemma_last_call(calls: Seq<(Seq<char>, KindView)>, y: Seq<char>)
    ensures
        -1 <= last_call(calls, y) < calls.len(),
        last_call(calls, y) >= 0 ==> calls[last_call(calls, y)].0 == y,
        forall|k: int| last_call(calls, y) < k < calls.len() ==> (#[trigger] calls[k]).0 != y,
        (last_call(calls, y) >= 0) == call_sources(calls).contains(y),
    decreases calls.len(),
{
    if calls.len() > 0 {
        let d = calls.drop_last();
        lemma_last_call(d, y);
        assert forall|k: int| 0 <= k < d.len() implies d[k] == calls[k] by {}
        if calls.last().0 == y {
            assert(call_sources(calls)[calls.len() - 1] == y);
        } else {
            if call_sources(calls).contains(y) {
                let k = choose|k: int| 0 <= k < calls.len() && call_sources(calls)[k] == y;
                assert(k < calls.len() - 1);
                assert(call_sources(d)[k] == y);
            }
            if call_sources(d).contains(y) {
                let k = choose|k: int| 0 <= k < d.len() && call_sources(d)[k] == y;
                assert(call_sources(calls)[k] == y);
            }
        }
    }
}

/// Every entry of `s` for another source stays in `without_source(s, src)`.
proof fn lemma_without_keeps(s: Seq<StatusView>, src: Seq<char>, i: int)
    requires
        0 <= i < s.len(),
        s[i].source != src,
    ensures
        without_source(s, src).contains(s[i]),
    decreases s.len(),
{
    let d = s.drop_last();
    let p = without_source(d, src);
    if i == s.len() - 1 {
        assert(without_source(s, src)[p.len() as int] == s[i]);
    } else {
        assert(d[i] == s[i]);
        lemma_without_keeps(d, src, i);
        let k = choose|k: int| 0 <= k < p.len() && p[k] == s[i];
        if s.last().source == src {
        } else {
            assert(without_source(s, src)[k] == s[i]);
        }
    }
}

/// Removing a source keeps the remaining entries in their order.
proof fn lemma_without_ordered(s: Seq<StatusView>, src: Seq<char>, f: spec_fn(Seq<char>) -> int)
    requires
        forall|i: int, j: int| 0 <= i < j < s.len() ==> f((#[trigger] s[i]).source) < f((#[trigger] s[j]).source),
    ensures
        forall|i: int, j: int| 0 <= i < j < without_source(s, src).len() ==> f((#[trigger] without_source(s, src)[i]).source) < f((#[trigger] without_source(s, src)[j]).source),
    decreases s.len(),
{
    if s.len() > 0 {
        let d = s.drop_last();
        assert forall|i: int, j: int| 0 <= i < j < d.len() implies f((#[trigger] d[i]).source) < f((#[trigger] d[j]).source) by {
            assert(d[i] == s[i] && d[j] == s[j]);
        }
        lemma_without_ordered(d, src, f);
        lemma_without_source(d, src);
        let p = without_source(d, src);
        let e = s.last();
        if e.source != src {
            let q = p.push(e);
            assert forall|i: int, j: int| 0 <= i < j < q.len() implies f((#[trigger] q[i]).source) < f((#[trigger] q[j]).source) by {
                if j == q.len() - 1 {
                    assert(d.contains(p[i]));
                    let k = choose|k: int| 0 <= k < d.len() && d[k] == p[i];
                    assert(s[k] == p[i]);
                    assert(s[s.len() - 1] == e);
                } else {
                    assert(q[i] == p[i] && q[j] == p[j]);
                }
            }
        }
    }
}

proof fn lemma_status_after(calls: Seq<(Seq<char>, KindView)>)
    ensures
        distinct_sources(status_after(calls)),
        forall|y: Seq<char>| (exists|i: int| 0 <= i < status_after(calls).len() && (#[trigger] status_after(calls)[i]).source == y) == call_sources(calls).contains(y),
        forall|i: int| 0 <= i < status_after(calls).len() ==> 0 <= last_call(calls, (#[trigger] status_after(calls)[i]).source)
            && status_after(calls)[i].kind == calls[last_call(calls, status_after(calls)[i].source)].1,
        forall|i: int, j: int| 0 <= i < j < status_after(calls).len() ==> last_call(calls, (#[trigger] status_after(calls)[i]).source) < last_call(calls, (#[trigger] status_after(calls)[j]).source),
    decreases calls.len(),
{
    if calls.len() == 0 {
        assert(status_after(calls) =~= Seq::<StatusView>::empty());
        assert forall|y: Seq<char>| !call_sources(calls).contains(y) by {}
    } else {
        let d = calls.drop_last();
        lemma_status_after(d);
        let r = status_after(d);
        let x = calls.last().0;
        let kd = calls.last().1;
        let n = calls.len();
        assert(status_after(calls) == recorded(r, x, kd));
        law_record_replaces(r, x, kd);
        lemma_without_source(r, x);
        let p = without_source(r, x);
        let q = status_after(calls);
        assert(q == p.push(StatusView { source: x, kind: kd }));
        assert forall|y: Seq<char>| y != x implies last_call(calls, y) == last_call(d, y) by {}
        assert(last_call(calls, x) == n - 1);
        assert forall|k: int| 0 <= k < d.len() implies d[k] == calls[k] by {}
        // entries kept from r: their facts carry over
        assert forall|i: int| 0 <= i < p.len() implies r.contains(#[trigger] p[i]) && p[i].source != x by {}
        assert forall|i: int| 0 <= i < q.len() implies 0 <= last_call(calls, (#[trigger] q[i]).source)
            && q[i].kind == calls[last_call(calls, q[i].source)].1 by {
            if i < p.len() {
                assert(r.contains(p[i]));
                let k = choose|k: int| 0 <= k < r.len() && r[k] == p[i];
                lemma_last_call(d, r[k].source);
            }
        }
        let f = |y: Seq<char>| last_call(d, y);
        lemma_without_ordered(r, x, f);
        assert forall|i: int, j: int| 0 <= i < j < q.len() implies last_call(calls, (#[trigger] q[i]).source) < last_call(calls, (#[trigger] q[j]).source) by {
            assert(q[i] == p[i]);
            assert(r.contains(p[i]));
            let k = choose|k: int| 0 <= k < r.len() && r[k] == p[i];
            lemma_last_call(d, r[k].source);
            if j < q.len() - 1 {
                assert(q[j] == p[j]);
                assert(f(p[i].source) < f(p[j].source));
            }
        }
        assert forall|y: Seq<char>| (exists|i: int| 0 <= i < q.len() && (#[trigger] q[i]).source == y) == call_sources(calls).contains(y) by {
            lemma_last_call(calls, y);
            lemma_last_call(d, y);
            if y == x {
                assert(q[q.len() - 1].source == y);
            } else {
                if exists|i: int| 0 <= i < q.len() && (#[trigger] q[i]).source == y {
                    let i = choose|i: int| 0 <= i < q.len() && (#[trigger] q[i]).source == y;
                    assert(q[i] == p[i]);
                    assert(r.contains(p[i]));
                    let k = choose|k: int| 0 <= k < r.len() && r[k] == p[i];
                    assert(r[k].source == y);
                }
                if call_sources(d).contains(y) {
                    let i = choose|i: int| 0 <= i < r.len() && (#[trigger] r[i]).source == y;
                    lemma_without_keeps(r, x, i);
                    let k = choose|k: int| 0 <= k < p.len() && p[k] == r[i];
                    assert(q[k] == p[k]);
                }
            }
        }
    }
}

/// Law: any run of record calls (`record_ok`, `record_error`,
/// `record_auth_error`) on a fresh status keeps one entry per distinct
/// source named, each with the kind of its last call, ordered by the time
/// of that last call (most recent last); so its length is the number of
/// distinct sources.
pub proof fn law_record_sequence(calls: Seq<(Seq<char>, KindView)>)
    ensures
        distinct_sources(status_after(calls)),
        forall|y: Seq<char>| (exists|i: int| 0 <= i < status_after(calls).len() && (#[trigger] status_after(calls)[i]).source == y) == call_sources(calls).contains(y),
        forall|i: int| 0 <= i < status_after(calls).len() ==> 0 <= last_call(calls, (#[trigger] status_after(calls)[i]).source)
            && status_after(calls)[i].kind == calls[last_call(calls, status_after(calls)[i].source)].1,
        forall|i: int, j: int| 0 <= i < j < status_after(calls).len() ==> last_call(calls, (#[trigger] status_after(calls)[i]).source) < last_call(calls, (#[trigger] status_after(calls)[j]).source),
        status_after(calls).len() == call_sources(calls).to_set().len(),
{
    lemma_status_after(calls);
    let r = status_after(calls);
    let srcs = r.map_values(|e: StatusView| e.source);
    assert(srcs.no_duplicates()) by {
        assert forall|i: int, j: int| 0 <= i < srcs.len() && 0 <= j < srcs.len() && i != j implies srcs[i] != srcs[j] by {
            if i < j {
                assert(r[i].source != r[j].source);
            } else {
                assert(r[j].source != r[i].source);
            }
        }
    }
    srcs.unique_seq_to_set();
    assert(srcs.to_set() =~= call_sources(calls).to_set()) by {
        assert forall|y: Seq<char>| srcs.to_set().contains(y) == call_sources(calls).to_set().contains(y) by {
            if srcs.contains(y) {
                let i = choose|i: int| 0 <= i < srcs.len() && srcs[i] == y;
                assert(r[i].source == y);
            }
            if exists|i: int| 0 <= i < r.len() && (#[trigger] r[i]).source == y {
                let i = choose|i: int| 0 <= i < r.len() && (#[trigger] r[i]).source == y;
                assert(srcs[i] == y);
            }
        }
    }
}

} // verus!
