//! Compress groups of similar events into timeline nodes.
use vstd::prelude::*;
use crate::events::{EventKind, RawEvent, EventView, standalone_kind, kind_name, all_kinds, opt_view};
use crate::group::{RepoGroup, GroupView};
use crate::order::{TimeKey, vals, sort_asc, sort_desc, sort_ascending, sort_descending};
use crate::text::{signed_decimal, join, views, split_once, i128_to_decimal, join_strings, find_char};
use crate::time::{secs_since, unix_second, unix_second_of, secs_since_of};

verus! {

/// Configuration for the compression algorithm.
#[derive(Debug, Clone, Copy, PartialEq, Eq, Structural)]
pub struct CompressionConfig {
    /// Maximum time-span (in seconds) within which events of the same type
    /// in the same repo can be collapsed.
    pub window_secs: i64,
    /// Maximum number of `(type, count)` pairs per node before further
    /// types spill into additional nodes (a limit of 0 is taken as 1).
    pub max_pairs_per_node: usize,
}

impl Default for CompressionConfig {
    fn default() -> (r: Self)
        ensures
            r.window_secs == 3 * 60 * 60,
            r.max_pairs_per_node == 3,
    {
        CompressionConfig { window_secs: 3 * 60 * 60, max_pairs_per_node: 3 }
    }
}

/// A pair of (event type, count) within a compressed node.
#[derive(Debug, Clone, Copy, PartialEq, Eq, Structural)]
pub struct KindCount {
    /// The event kind.
    pub kind: EventKind,
    /// The number of events of this kind.
    pub count: u32,
}

/// A single node on the timeline. A node is either:
/// - a *grouped* node (one or more `KindCount`s from one repo, with a time
///   range), or
/// - a *standalone* node (one event, never compressed — e.g. new repo
///   creation).
#[derive(Debug, Clone, PartialEq, Eq)]
pub struct CompressedNode {
    /// Stable id derived from (repo, kind-set, earliest timestamp). Two
    /// compressions of the same input produce the same id.
    pub id: String,
    /// "owner/name"
    pub repo: String,
    /// Earliest event time in this node (an instant, see `time`).
    pub earliest: i128,
    /// Latest event time in this node (an instant, see `time`).
    pub latest: i128,
    /// (kind, count) pairs.
    pub pairs: Vec<KindCount>,
    /// If true, this is a rare/important event that should not be
    /// compressed (e.g. new repo created).
    pub standalone: bool,
    /// Deep-link target. For grouped nodes, the URL of the most recent
    /// event in the chunk; for standalone nodes, the URL of the single
    /// event; the repo page when the event has no URL.
    pub target_url: String,
}

/// The value of a [`CompressedNode`].
pub struct NodeView {
    pub id: Seq<char>,
    pub repo: Seq<char>,
    pub earliest: int,
    pub latest: int,
    pub pairs: Seq<KindCount>,
    pub standalone: bool,
    pub target_url: Seq<char>,
}

impl View for CompressedNode {
    type V = NodeView;

    open spec fn view(&self) -> NodeView {
        NodeView {
            id: self.id@,
            repo: self.repo@,
            earliest: self.earliest as int,
            latest: self.latest as int,
            pairs: self.pairs@,
            standalone: self.standalone,
            target_url: self.target_url@,
        }
    }
}

impl TimeKey for CompressedNode {
    open spec fn key(v: NodeView) -> int {
        v.latest
    }

    fn time_key(&self) -> (t: i128) {
        self.latest
    }
}

/// The part of `repo` after the first `/`, or all of it when there is none.
pub open spec fn short_name(repo: Seq<char>) -> Seq<char> {
    match split_once(repo, '/') {
        Some((_, name)) => name,
        None => repo,
    }
}

impl CompressedNode {
    /// The repo's display name (after the slash).
    pub fn repo_short(&self) -> (r: &str)
        ensures
            r@ == short_name(self.repo@),
    {
        let s = self.repo.as_str();
        match find_char(s, '/') {
            Some(i) => {
                proof {
                    assert(crate::text::is_first_index(s@, '/', i as int));
                    let k = choose|k: int| crate::text::is_first_index(s@, '/', k);
                    assert(k == i) by {
                        if k < i {
                            assert(s@[k] != '/');
                        } else if k > i {
                            assert(s@[i as int] != '/');
                        }
                    }
                }
                let n = s.unicode_len();
                let r = s.substring_char(i + 1, n);
                assert(r@ =~= s@.skip(i + 1));
                r
            },
            None => {
                proof {
                    if exists|k: int| crate::text::is_first_index(s@, '/', k) {
                        let k = choose|k: int| crate::text::is_first_index(s@, '/', k);
                        assert(s@.contains('/')) by {
                            assert(s@[k] == '/');
                        }
                    }
                }
                s
            },
        }
    }
}

/// `https://github.com/`
pub open spec fn github_prefix() -> Seq<char> {
    seq!['h', 't', 't', 'p', 's', ':', '/', '/', 'g', 'i', 't', 'h', 'u', 'b', '.', 'c', 'o', 'm', '/']
}

/// The repo's page, the deep link when no event URL is available.
pub open spec fn fallback_url(repo: Seq<char>) -> Seq<char> {
    github_prefix() + repo
}

/// The URL an event links to, or its repo's page when it has none.
pub open spec fn link_or_repo(url: Option<Seq<char>>, repo: Seq<char>) -> Seq<char> {
    match url {
        Some(u) => u,
        None => fallback_url(repo),
    }
}

/// `standalone:`
pub open spec fn standalone_tag() -> Seq<char> {
    seq!['s', 't', 'a', 'n', 'd', 'a', 'l', 'o', 'n', 'e', ':']
}

/// `group:`
pub open spec fn group_tag() -> Seq<char> {
    seq!['g', 'r', 'o', 'u', 'p', ':']
}

/// The node of an event that is never compressed.
pub open spec fn standalone_node_of(e: EventView) -> NodeView {
    NodeView {
        id: standalone_tag() + e.repo + seq![':'] + e.id,
        repo: e.repo,
        earliest: e.created_at,
        latest: e.created_at,
        pairs: seq![KindCount { kind: e.kind, count: 1 }],
        standalone: true,
        target_url: link_or_repo(e.url, e.repo),
    }
}

fn fallback_repo_url(repo: &str) -> (r: String)
    ensures
        r@ == fallback_url(repo@),
{
    proof {
        reveal_strlit("https://github.com/");
        assert("https://github.com/"@ =~= github_prefix());
    }
    String::from_str("https://github.com/").concat(repo)
}

fn link_for(url: &Option<String>, repo: &str) -> (r: String)
    ensures
        r@ == link_or_repo(opt_view(*url), repo@),
{
    match url {
        Some(u) => u.clone(),
        None => fallback_repo_url(repo),
    }
}

fn standalone_node(ev: &RawEvent) -> (r: CompressedNode)
    ensures
        r@ == standalone_node_of(ev@),
{
    proof {
        reveal_strlit("standalone:");
        reveal_strlit(":");
        assert("standalone:"@ =~= standalone_tag());
        assert(":"@ =~= seq![':']);
    }
    let repo = ev.repo_full_name();
    let id = String::from_str("standalone:").concat(repo.as_str()).concat(":").concat(ev.id.as_str());
    let mut pairs: Vec<KindCount> = Vec::new();
    pairs.push(KindCount { kind: ev.kind, count: 1 });
    let target_url = link_for(&ev.url, repo.as_str());
    let r = CompressedNode {
        id,
        repo,
        earliest: ev.created_at,
        latest: ev.created_at,
        pairs,
        standalone: true,
        target_url,
    };
    assert(r@.pairs =~= seq![KindCount { kind: ev.kind, count: 1 }]);
    assert(r@.id =~= standalone_tag() + ev@.repo + seq![':'] + ev@.id);
    r
}

/// The earliest time among the (non-empty) `evs`.
pub open spec fn min_time(evs: Seq<EventView>) -> int
    decreases evs.len(),
{
    if evs.len() <= 1 {
        evs[0].created_at
    } else {
        let t = min_time(evs.drop_last());
        if evs.last().created_at < t { evs.last().created_at } else { t }
    }
}

/// The latest time among the (non-empty) `evs`.
pub open spec fn max_time(evs: Seq<EventView>) -> int
    decreases evs.len(),
{
    if evs.len() <= 1 {
        evs[0].created_at
    } else {
        let t = max_time(evs.drop_last());
        if evs.last().created_at > t { evs.last().created_at } else { t }
    }
}

/// How many of `evs` are of kind `k`.
pub open spec fn count_kind(evs: Seq<EventView>, k: EventKind) -> nat
    decreases evs.len(),
{
    if evs.len() == 0 {
        0
    } else {
        count_kind(evs.drop_last(), k) + if evs.last().kind == k { 1nat } else { 0nat }
    }
}

/// One `(kind, count)` pair for each of `kinds` that occurs in `evs`, in
/// the order of `kinds`.
pub open spec fn pairs_over(kinds: Seq<EventKind>, evs: Seq<EventView>) -> Seq<KindCount>
    decreases kinds.len(),
{
    if kinds.len() == 0 {
        Seq::empty()
    } else {
        let p = pairs_over(kinds.drop_last(), evs);
        let c = count_kind(evs, kinds.last());
        if c > 0 { p.push(KindCount { kind: kinds.last(), count: c as u32 }) } else { p }
    }
}

/// The `(kind, count)` pairs of `evs`, in the kinds' declared order.
pub open spec fn pairs_of(evs: Seq<EventView>) -> Seq<KindCount> {
    pairs_over(all_kinds(), evs)
}

/// The number of pairs a node may hold (at least one).
pub open spec fn per_node(m: int) -> int {
    if m <= 0 { 1 } else { m }
}

/// `pairs` cut into consecutive runs of at most `per_node(m)` pairs.
pub open spec fn spill(pairs: Seq<KindCount>, m: int) -> Seq<Seq<KindCount>>
    decreases pairs.len(),
{
    if pairs.len() == 0 {
        Seq::empty()
    } else if pairs.len() <= per_node(m) {
        seq![pairs]
    } else {
        seq![pairs.take(per_node(m))] + spill(pairs.skip(per_node(m)), m)
    }
}

/// The variant names of the kinds of `part`.
pub open spec fn kind_names(part: Seq<KindCount>) -> Seq<Seq<char>> {
    part.map_values(|p: KindCount| kind_name(p.kind))
}

/// `group:{repo}:{Unix second of earliest}:{kinds joined by |}`
pub open spec fn group_id(repo: Seq<char>, earliest: int, part: Seq<KindCount>) -> Seq<char> {
    group_tag() + repo + seq![':'] + signed_decimal(unix_second(earliest)) + seq![':'] + join(kind_names(part), seq!['|'])
}

/// The node holding the pairs `part` of a chunk of `repo`'s events.
pub open spec fn chunk_node(repo: Seq<char>, chunk: Seq<EventView>, part: Seq<KindCount>) -> NodeView {
    NodeView {
        id: group_id(repo, min_time(chunk), part),
        repo: repo,
        earliest: min_time(chunk),
        latest: max_time(chunk),
        pairs: part,
        standalone: false,
        target_url: link_or_repo(chunk.last().url, repo),
    }
}

/// The nodes holding `pairs` of `chunk`, at most `per_node(m)` pairs each.
pub open spec fn part_nodes(repo: Seq<char>, chunk: Seq<EventView>, pairs: Seq<KindCount>, m: int) -> Seq<NodeView> {
    spill(pairs, m).map_values(|part: Seq<KindCount>| chunk_node(repo, chunk, part))
}

/// The nodes of one chunk of `repo`'s events.
pub open spec fn chunk_nodes(repo: Seq<char>, chunk: Seq<EventView>, m: int) -> Seq<NodeView> {
    part_nodes(repo, chunk, pairs_of(chunk), m)
}

fn time_span(chunk: &Vec<RawEvent>) -> (r: (i128, i128))
    requires
        chunk.len() > 0,
    ensures
        r.0 as int == min_time(vals(chunk@)),
        r.1 as int == max_time(vals(chunk@)),
{
    let n = chunk.len();
    let mut lo = chunk[0].created_at;
    let mut hi = chunk[0].created_at;
    let mut i: usize = 1;
    while i < n
        invariant
            n == chunk@.len(),
            1 <= i <= n,
            lo as int == min_time(vals(chunk@).take(i as int)),
            hi as int == max_time(vals(chunk@).take(i as int)),
        decreases n - i,
    {
        assert(vals(chunk@).take(i + 1).drop_last() =~= vals(chunk@).take(i as int));
        let t = chunk[i].created_at;
        if t < lo {
            lo = t;
        }
        if t > hi {
            hi = t;
        }
        i = i + 1;
    }
    assert(vals(chunk@).take(n as int) =~= vals(chunk@));
    (lo, hi)
}

proof fn lemma_count_kind_bound(evs: Seq<EventView>, k: EventKind)
    ensures
        count_kind(evs, k) <= evs.len(),
    decreases evs.len(),
{
    if evs.len() > 0 {
        lemma_count_kind_bound(evs.drop_last(), k);
    }
}

fn count_of(chunk: &Vec<RawEvent>, k: EventKind) -> (c: u32)
    requires
        chunk.len() <= u32::MAX,
    ensures
        c as int == count_kind(vals(chunk@), k),
{
    let n = chunk.len();
    let mut c: u32 = 0;
    let mut i: usize = 0;
    while i < n
        invariant
            n == chunk@.len(),
            n <= u32::MAX,
            i <= n,
            c as int == count_kind(vals(chunk@).take(i as int), k),
        decreases n - i,
    {
        assert(vals(chunk@).take(i + 1).drop_last() =~= vals(chunk@).take(i as int));
        proof {
            lemma_count_kind_bound(vals(chunk@).take(i as int), k);
        }
        if chunk[i].kind == k {
            c = c + 1;
        }
        i = i + 1;
    }
    assert(vals(chunk@).take(n as int) =~= vals(chunk@));
    c
}

fn kind_pairs(chunk: &Vec<RawEvent>) -> (r: Vec<KindCount>)
    requires
        chunk.len() <= u32::MAX,
    ensures
        r@ == pairs_of(vals(chunk@)),
{
    let kinds = vec![
        EventKind::PrOpened,
        EventKind::PrMerged,
        EventKind::IssueOpened,
        EventKind::ReleasePublished,
        EventKind::RepoCreated,
    ];
    assert(kinds@ =~= all_kinds());
    let mut pairs: Vec<KindCount> = Vec::new();
    let mut j: usize = 0;
    while j < kinds.len()
        invariant
            kinds@ == all_kinds(),
            chunk.len() <= u32::MAX,
            j <= kinds@.len(),
            pairs@ == pairs_over(kinds@.take(j as int), vals(chunk@)),
        decreases kinds@.len() - j,
    {
        assert(kinds@.take(j + 1).drop_last() =~= kinds@.take(j as int));
        let k = kinds[j];
        let c = count_of(chunk, k);
        if c > 0 {
            pairs.push(KindCount { kind: k, count: c });
        }
        j = j + 1;
    }
    assert(kinds@.take(kinds@.len() as int) =~= kinds@);
    pairs
}

fn kind_name_list(part: &Vec<KindCount>) -> (r: Vec<String>)
    ensures
        views(r@) == kind_names(part@),
{
    let mut names: Vec<String> = Vec::new();
    let mut i: usize = 0;
    while i < part.len()
        invariant
            i <= part@.len(),
            names@.len() == i,
            views(names@) == kind_names(part@.take(i as int)),
        decreases part@.len() - i,
    {
        let ghost before = names@;
        let nm = String::from_str(part[i].kind.name());
        assert(nm@ == kind_name(part@[i as int].kind));
        names.push(nm);
        assert(views(names@).len() == i + 1);
        assert forall|t: int| 0 <= t < i + 1 implies #[trigger] views(names@)[t] == kind_names(part@.take(i + 1))[t] by {
            if t < i {
                assert(names@[t] == before[t]);
                assert(views(before)[t] == kind_names(part@.take(i as int))[t]);
            }
        }
        assert(views(names@) =~= kind_names(part@.take(i + 1)));
        i = i + 1;
    }
    assert(part@.take(part@.len() as int) =~= part@);
    names
}

fn make_group_node(repo: &String, chunk: &Vec<RawEvent>, lo: i128, hi: i128, part: Vec<KindCount>) -> (r: CompressedNode)
    requires
        chunk.len() > 0,
        lo as int == min_time(vals(chunk@)),
        hi as int == max_time(vals(chunk@)),
    ensures
        r@ == chunk_node(repo@, vals(chunk@), part@),
{
    proof {
        reveal_strlit("group:");
        reveal_strlit(":");
        reveal_strlit("|");
        assert("group:"@ =~= group_tag());
        assert(":"@ =~= seq![':']);
        assert("|"@ =~= seq!['|']);
    }
    let names = kind_name_list(&part);
    let kinds = join_strings(&names, "|");
    let stamp = i128_to_decimal(unix_second_of(lo));
    let id = String::from_str("group:").concat(repo.as_str()).concat(":").concat(stamp.as_str()).concat(":").concat(
        kinds.as_str(),
    );
    let last = chunk.len() - 1;
    assert(vals(chunk@).last() == chunk@[last as int]@);
    let target_url = link_for(&chunk[last].url, repo.as_str());
    let r = CompressedNode {
        id,
        repo: repo.clone(),
        earliest: lo,
        latest: hi,
        pairs: part,
        standalone: false,
        target_url,
    };
    assert(r@.id =~= group_id(repo@, min_time(vals(chunk@)), part@));
    r
}

fn compress_chunk(repo: &String, chunk: &Vec<RawEvent>, max_pairs: usize) -> (r: Vec<CompressedNode>)
    requires
        0 < chunk.len() <= u32::MAX,
    ensures
        vals(r@) == chunk_nodes(repo@, vals(chunk@), max_pairs as int),
{
    let (lo, hi) = time_span(chunk);
    let pairs = kind_pairs(chunk);
    let k: usize = if max_pairs == 0 { 1 } else { max_pairs };
    let ghost m = max_pairs as int;
    let ghost evs = vals(chunk@);
    let n = pairs.len();
    let mut out: Vec<CompressedNode> = Vec::new();
    let mut s: usize = 0;
    assert(pairs@.skip(0) =~= pairs@);
    while s < n
        invariant
            n == pairs@.len(),
            k as int == per_node(m),
            m == max_pairs as int,
            evs == vals(chunk@),
            chunk.len() > 0,
            lo as int == min_time(evs),
            hi as int == max_time(evs),
            s <= n,
            vals(out@) + part_nodes(repo@, evs, pairs@.skip(s as int), m)
                == part_nodes(repo@, evs, pairs@, m),
        decreases n - s,
    {
        let e: usize = if n - s <= k { n } else { s + k };
        let mut part: Vec<KindCount> = Vec::new();
        let mut t: usize = s;
        while t < e
            invariant
                s <= t <= e,
                e <= n,
                n == pairs@.len(),
                part@ == pairs@.subrange(s as int, t as int),
            decreases e - t,
        {
            part.push(pairs[t]);
            t = t + 1;
        }
        let ghost rest = pairs@.skip(s as int);
        let ghost f = |p: Seq<KindCount>| chunk_node(repo@, evs, p);
        assert(part@ =~= if n - s <= k { rest } else { rest.take(k as int) });
        let node = make_group_node(repo, chunk, lo, hi, part);
        let ghost old_out = vals(out@);
        out.push(node);
        assert(vals(out@) =~= old_out.push(node@));
        if n - s <= k {
            assert(spill(rest, m) == seq![rest]);
            assert(pairs@.skip(e as int) =~= Seq::<KindCount>::empty());
            assert(spill(pairs@.skip(e as int), m) =~= Seq::<Seq<KindCount>>::empty());
            assert(part_nodes(repo@, evs, rest, m) =~= seq![node@]);
            assert(part_nodes(repo@, evs, pairs@.skip(e as int), m) =~= Seq::<NodeView>::empty());
        } else {
            assert(rest.skip(k as int) =~= pairs@.skip(e as int));
            assert(spill(rest, m) == seq![rest.take(k as int)] + spill(pairs@.skip(e as int), m));
            assert(part_nodes(repo@, evs, rest, m) =~= seq![node@] + part_nodes(repo@, evs, pairs@.skip(e as int), m));
        }
        assert(vals(out@) + part_nodes(repo@, evs, pairs@.skip(e as int), m) =~= old_out + part_nodes(repo@, evs, rest, m));
        s = e;
    }
    assert(pairs@.skip(n as int) =~= Seq::<KindCount>::empty());
    assert(part_nodes(repo@, evs, pairs@.skip(n as int), m) =~= Seq::<NodeView>::empty());
    assert(vals(out@) + Seq::<NodeView>::empty() =~= vals(out@));
    out
}

/// Whether `t` lies within `w` whole seconds of `first`, on either side
/// (the seconds between them counted toward zero).
pub open spec fn within_window(first: int, t: int, w: int) -> bool {
    (if secs_since(t, first) >= 0 { secs_since(t, first) } else { -secs_since(t, first) }) <= w
}

/// The greedy walk over `s`: the chunks closed so far and the open one.
/// An event joins the open chunk when it lies within `w` seconds of the
/// chunk's first event, and otherwise closes it and opens the next.
pub open spec fn chunk_state(s: Seq<EventView>, w: int) -> (Seq<Seq<EventView>>, Seq<EventView>)
    decreases s.len(),
{
    if s.len() == 0 {
        (Seq::empty(), Seq::empty())
    } else {
        let st = chunk_state(s.drop_last(), w);
        let e = s.last();
        if st.1.len() == 0 {
            (st.0, seq![e])
        } else if within_window(st.1[0].created_at, e.created_at, w) {
            (st.0, st.1.push(e))
        } else {
            (st.0.push(st.1), seq![e])
        }
    }
}

/// The chunks of `s` that the greedy walk produces.
pub open spec fn chunks(s: Seq<EventView>, w: int) -> Seq<Seq<EventView>> {
    let st = chunk_state(s, w);
    if st.1.len() == 0 { st.0 } else { st.0.push(st.1) }
}

/// The nodes of the chunks `chs` of `repo`'s events, chunk by chunk.
pub open spec fn nodes_of_chunks(repo: Seq<char>, chs: Seq<Seq<EventView>>, m: int) -> Seq<NodeView>
    decreases chs.len(),
{
    if chs.len() == 0 {
        Seq::empty()
    } else {
        nodes_of_chunks(repo, chs.drop_last(), m) + chunk_nodes(repo, chs.last(), m)
    }
}

/// One node for each standalone event of `evs`, in input order.
pub open spec fn standalone_nodes(evs: Seq<EventView>) -> Seq<NodeView>
    decreases evs.len(),
{
    if evs.len() == 0 {
        Seq::empty()
    } else {
        let p = standalone_nodes(evs.drop_last());
        if standalone_kind(evs.last().kind) { p.push(standalone_node_of(evs.last())) } else { p }
    }
}

/// The events of `evs` that may be compressed, in input order.
pub open spec fn compressible(evs: Seq<EventView>) -> Seq<EventView>
    decreases evs.len(),
{
    if evs.len() == 0 {
        Seq::empty()
    } else {
        let p = compressible(evs.drop_last());
        if standalone_kind(evs.last().kind) { p } else { p.push(evs.last()) }
    }
}

/// The nodes of one group: its standalone events first, then the chunks
/// of its other events taken oldest first.
pub open spec fn group_nodes(g: GroupView, cfg: CompressionConfig) -> Seq<NodeView> {
    standalone_nodes(g.events) + nodes_of_chunks(
        g.repo,
        chunks(sort_asc::<RawEvent>(compressible(g.events)), cfg.window_secs as int),
        cfg.max_pairs_per_node as int,
    )
}

/// The nodes of all groups, group by group.
pub open spec fn all_nodes(groups: Seq<GroupView>, cfg: CompressionConfig) -> Seq<NodeView>
    decreases groups.len(),
{
    if groups.len() == 0 {
        Seq::empty()
    } else {
        all_nodes(groups.drop_last(), cfg) + group_nodes(groups.last(), cfg)
    }
}

/// What `compress` returns: the nodes of all groups, newest first (nodes
/// whose latest events are equally recent keep their order).
pub open spec fn compressed(groups: Seq<GroupView>, cfg: CompressionConfig) -> Seq<NodeView> {
    sort_desc::<CompressedNode>(all_nodes(groups, cfg))
}

proof fn lemma_compressible_len(evs: Seq<EventView>)
    ensures
        compressible(evs).len() <= evs.len(),
    decreases evs.len(),
{
    if evs.len() > 0 {
        lemma_compressible_len(evs.drop_last());
    }
}

proof fn lemma_vals_push<T: View>(s: Seq<T>, x: T)
    ensures
        vals(s.push(x)) =~= vals(s).push(x@),
{
}

proof fn lemma_vals_add<T: View>(a: Seq<T>, b: Seq<T>)
    ensures
        vals(a + b) =~= vals(a) + vals(b),
{
}

fn nodes_for_group(g: &RepoGroup, cfg: &CompressionConfig) -> (r: Vec<CompressedNode>)
    requires
        g.events.len() <= u32::MAX,
    ensures
        vals(r@) == group_nodes(g@, *cfg),
{
    let ghost evs = vals(g.events@);
    let ghost w = cfg.window_secs as int;
    let ghost m = cfg.max_pairs_per_node as int;
    let n = g.events.len();
    let mut out: Vec<CompressedNode> = Vec::new();
    let mut to_compress: Vec<RawEvent> = Vec::new();
    let mut j: usize = 0;
    while j < n
        invariant
            n == g.events@.len(),
            evs == vals(g.events@),
            j <= n,
            vals(out@) == standalone_nodes(evs.take(j as int)),
            vals(to_compress@) == compressible(evs.take(j as int)),
        decreases n - j,
    {
        assert(evs.take(j + 1).drop_last() =~= evs.take(j as int));
        assert(evs.take(j + 1).last() == g.events@[j as int]@);
        let ev = &g.events[j];
        if ev.kind.is_standalone() {
            let nd = standalone_node(ev);
            proof {
                lemma_vals_push(out@, nd);
            }
            out.push(nd);
        } else {
            let c = ev.copy();
            proof {
                lemma_vals_push(to_compress@, c);
            }
            to_compress.push(c);
        }
        j = j + 1;
    }
    assert(evs.take(n as int) =~= evs);
    proof {
        lemma_compressible_len(evs);
        crate::order::law_sort_asc::<RawEvent>(vals(to_compress@));
    }
    let sorted = sort_ascending(to_compress);
    let ghost ss = vals(sorted@);
    let ghost base = vals(out@);
    let k = sorted.len();
    let mut current: Vec<RawEvent> = Vec::new();
    let mut i: usize = 0;
    while i < k
        invariant
            k == sorted@.len(),
            k <= u32::MAX,
            ss == vals(sorted@),
            w == cfg.window_secs as int,
            m == cfg.max_pairs_per_node as int,
            i <= k,
            current@.len() <= i,
            vals(current@) == chunk_state(ss.take(i as int), w).1,
            vals(out@) == base + nodes_of_chunks(g.repo@, chunk_state(ss.take(i as int), w).0, m),
        decreases k - i,
    {
        assert(ss.take(i + 1).drop_last() =~= ss.take(i as int));
        assert(ss.take(i + 1).last() == sorted@[i as int]@);
        let e = sorted[i].copy();
        if current.len() == 0 {
            proof {
                lemma_vals_push(current@, e);
            }
            current.push(e);
            assert(vals(current@) =~= seq![e@]);
        } else {
            assert(vals(current@)[0] == current@[0]@);
            let first = current[0].created_at;
            let t = e.created_at;
            let s = secs_since_of(t, first);
            let d: i128 = if s >= 0 { s } else { 0 - s };
            if d <= cfg.window_secs as i128 {
                proof {
                    lemma_vals_push(current@, e);
                }
                current.push(e);
            } else {
                let ghost st = chunk_state(ss.take(i as int), w);
                let mut ns = compress_chunk(&g.repo, &current, cfg.max_pairs_per_node);
                let ghost before = out@;
                let ghost added = ns@;
                out.append(&mut ns);
                proof {
                    lemma_vals_add(before, added);
                    assert(st.0.push(st.1).drop_last() =~= st.0);
                }
                assert(vals(out@) =~= base + nodes_of_chunks(g.repo@, st.0.push(st.1), m));
                current = Vec::new();
                proof {
                    lemma_vals_push(current@, e);
                }
                current.push(e);
                assert(vals(current@) =~= seq![e@]);
            }
        }
        i = i + 1;
    }
    assert(ss.take(k as int) =~= ss);
    if current.len() > 0 {
        let ghost st = chunk_state(ss, w);
        let mut ns = compress_chunk(&g.repo, &current, cfg.max_pairs_per_node);
        let ghost before = out@;
        let ghost added = ns@;
        out.append(&mut ns);
        proof {
            lemma_vals_add(before, added);
            assert(st.0.push(st.1).drop_last() =~= st.0);
        }
        assert(vals(out@) =~= base + nodes_of_chunks(g.repo@, st.0.push(st.1), m));
    }
    assert(vals(out@) =~= group_nodes(g@, *cfg));
    out
}

/// Compress a list of repo groups into timeline nodes, newest first. New
/// repo creation is never compressed.
pub fn compress(groups: &[RepoGroup], cfg: &CompressionConfig) -> (r: Vec<CompressedNode>)
    requires
        forall|i: int| 0 <= i < groups@.len() ==> #[trigger] groups@[i].events@.len() <= u32::MAX,
    ensures
        vals(r@) == compressed(vals(groups@), *cfg),
{
    let ghost gs = vals(groups@);
    let n = groups.len();
    let mut out: Vec<CompressedNode> = Vec::new();
    let mut i: usize = 0;
    while i < n
        invariant
            n == groups@.len(),
            gs == vals(groups@),
            forall|t: int| 0 <= t < groups@.len() ==> #[trigger] groups@[t].events@.len() <= u32::MAX,
            i <= n,
            vals(out@) == all_nodes(gs.take(i as int), *cfg),
        decreases n - i,
    {
        assert(gs.take(i + 1).drop_last() =~= gs.take(i as int));
        assert(gs.take(i + 1).last() == groups@[i as int]@);
        assert(groups@[i as int].events@.len() <= u32::MAX);
        let mut ns = nodes_for_group(&groups[i], cfg);
        let ghost before = out@;
        let ghost added = ns@;
        out.append(&mut ns);
        proof {
            lemma_vals_add(before, added);
        }
        i = i + 1;
    }
    assert(gs.take(n as int) =~= gs);
    sort_descending(out)
}

/// A chunk holds at least one event, and each of its later events lies
/// within `w` seconds of its first.
pub open spec fn windowed(c: Seq<EventView>, w: int) -> bool {
    c.len() > 0 && forall|j: int| 0 < j < c.len() ==> within_window(c[0].created_at, #[trigger] c[j].created_at, w)
}

proof fn lemma_chunk_state(s: Seq<EventView>, w: int)
    ensures
        forall|k: int| 0 <= k < chunk_state(s, w).0.len() ==> windowed(#[trigger] chunk_state(s, w).0[k], w),
        chunk_state(s, w).1.len() > 0 ==> windowed(chunk_state(s, w).1, w),
        s.len() > 0 ==> chunk_state(s, w).1.len() > 0,
        chunk_state(s, w).0.flatten() + chunk_state(s, w).1 == s,
    decreases s.len(),
{
    if s.len() == 0 {
        assert(chunk_state(s, w).0.flatten() + chunk_state(s, w).1 =~= s);
    } else {
        let d = s.drop_last();
        lemma_chunk_state(d, w);
        let st = chunk_state(d, w);
        let e = s.last();
        assert(d.push(e) =~= s);
        if st.1.len() == 0 {
            assert(d.len() == 0);
            assert(st.0.flatten() =~= Seq::<EventView>::empty());
            assert(chunk_state(s, w).0.flatten() + chunk_state(s, w).1 =~= s);
        } else if within_window(st.1[0].created_at, e.created_at, w) {
            let c = st.1.push(e);
            assert(forall|j: int| 0 <= j < c.len() - 1 ==> c[j] == st.1[j]);
            assert(c[0] == st.1[0]);
            assert(windowed(c, w));
            assert(st.0.flatten() + c =~= (st.0.flatten() + st.1).push(e));
        } else {
            st.0.lemma_flatten_push(st.1);
            let done = st.0.push(st.1);
            assert forall|k: int| 0 <= k < done.len() implies windowed(#[trigger] done[k], w) by {
                if k < st.0.len() {
                    assert(done[k] == st.0[k]);
                }
            }
            assert(windowed(seq![e], w));
            assert(done.flatten() + seq![e] =~= (st.0.flatten() + st.1).push(e));
        }
    }
}

/// Law: the greedy walk puts every event in exactly one chunk, keeping
/// their order, and every chunk is non-empty and spans at most `w` seconds
/// from its first event.
pub proof fn law_chunks_partition(s: Seq<EventView>, w: int)
    ensures
        chunks(s, w).flatten() == s,
        forall|k: int| 0 <= k < chunks(s, w).len() ==> windowed(#[trigger] chunks(s, w)[k], w),
{
    lemma_chunk_state(s, w);
    let st = chunk_state(s, w);
    if st.1.len() > 0 {
        st.0.lemma_flatten_push(st.1);
        let c = st.0.push(st.1);
        assert forall|k: int| 0 <= k < c.len() implies windowed(#[trigger] c[k], w) by {
            if k < st.0.len() {
                assert(c[k] == st.0[k]);
            }
        }
    } else {
        assert(st.0.flatten() + st.1 =~= st.0.flatten());
    }
}

/// What every node of `compress` looks like. A standalone node holds one
/// event of a standalone kind; a grouped node holds between one and
/// `per_node(m)` pairs, none of a standalone kind, spans from its earliest
/// to its latest event, and its id is derived from its repo, its earliest
/// time and its kinds alone.
pub open spec fn node_shape(n: NodeView, m: int) -> bool {
    if n.standalone {
        &&& n.pairs.len() == 1
        &&& n.pairs[0].count == 1
        &&& standalone_kind(n.pairs[0].kind)
        &&& n.earliest == n.latest
    } else {
        &&& n.id == group_id(n.repo, n.earliest, n.pairs)
        &&& n.earliest <= n.latest
        &&& 1 <= n.pairs.len() <= per_node(m)
        &&& forall|j: int| 0 <= j < n.pairs.len() ==> !standalone_kind(#[trigger] n.pairs[j].kind)
    }
}

/// Every node of `s` has the shape of [`node_shape`].
pub open spec fn all_shaped(s: Seq<NodeView>, m: int) -> bool {
    forall|k: int| 0 <= k < s.len() ==> node_shape(#[trigger] s[k], m)
}

/// No event of `c` is of a standalone kind.
pub open spec fn none_standalone(c: Seq<EventView>) -> bool {
    forall|j: int| 0 <= j < c.len() ==> !standalone_kind(#[trigger] c[j].kind)
}

proof fn lemma_shaped_add(a: Seq<NodeView>, b: Seq<NodeView>, m: int)
    requires
        all_shaped(a, m),
        all_shaped(b, m),
    ensures
        all_shaped(a + b, m),
{
    assert forall|k: int| 0 <= k < (a + b).len() implies node_shape(#[trigger] (a + b)[k], m) by {
        if k < a.len() {
            assert((a + b)[k] == a[k]);
        } else {
            assert((a + b)[k] == b[k - a.len()]);
        }
    }
}

proof fn lemma_standalone_nodes_shaped(evs: Seq<EventView>, m: int)
    ensures
        all_shaped(standalone_nodes(evs), m),
    decreases evs.len(),
{
    if evs.len() > 0 {
        lemma_standalone_nodes_shaped(evs.drop_last(), m);
        let p = standalone_nodes(evs.drop_last());
        if standalone_kind(evs.last().kind) {
            let n = standalone_node_of(evs.last());
            assert(node_shape(n, m));
            assert forall|k: int| 0 <= k < p.push(n).len() implies node_shape(#[trigger] p.push(n)[k], m) by {
                if k < p.len() {
                    assert(p.push(n)[k] == p[k]);
                }
            }
        }
    }
}

proof fn lemma_compressible_none_standalone(evs: Seq<EventView>)
    ensures
        none_standalone(compressible(evs)),
    decreases evs.len(),
{
    if evs.len() > 0 {
        lemma_compressible_none_standalone(evs.drop_last());
        let p = compressible(evs.drop_last());
        if !standalone_kind(evs.last().kind) {
            assert forall|j: int| 0 <= j < p.push(evs.last()).len() implies !standalone_kind(
                #[trigger] p.push(evs.last())[j].kind,
            ) by {
                if j < p.len() {
                    assert(p.push(evs.last())[j] == p[j]);
                }
            }
        }
    }
}

proof fn lemma_span_ordered(c: Seq<EventView>)
    requires
        c.len() > 0,
    ensures
        min_time(c) <= max_time(c),
    decreases c.len(),
{
    if c.len() > 1 {
        lemma_span_ordered(c.drop_last());
    }
}

proof fn lemma_count_kind_absent(evs: Seq<EventView>, k: EventKind)
    requires
        none_standalone(evs),
        standalone_kind(k),
    ensures
        count_kind(evs, k) == 0,
    decreases evs.len(),
{
    if evs.len() > 0 {
        assert(!standalone_kind(evs[evs.len() - 1].kind));
        let d = evs.drop_last();
        assert forall|j: int| 0 <= j < d.len() implies !standalone_kind(#[trigger] d[j].kind) by {
            assert(d[j] == evs[j]);
        }
        lemma_count_kind_absent(d, k);
    }
}

proof fn lemma_pairs_over_kinds(kinds: Seq<EventKind>, evs: Seq<EventView>)
    ensures
        forall|j: int| 0 <= j < pairs_over(kinds, evs).len() ==> count_kind(evs, #[trigger] pairs_over(kinds, evs)[j].kind) > 0,
    decreases kinds.len(),
{
    if kinds.len() > 0 {
        lemma_pairs_over_kinds(kinds.drop_last(), evs);
        let p = pairs_over(kinds.drop_last(), evs);
        let c = count_kind(evs, kinds.last());
        if c > 0 {
            let q = p.push(KindCount { kind: kinds.last(), count: c as u32 });
            assert forall|j: int| 0 <= j < q.len() implies count_kind(evs, #[trigger] q[j].kind) > 0 by {
                if j < p.len() {
                    assert(q[j] == p[j]);
                }
            }
        }
    }
}

proof fn lemma_spill_parts(pairs: Seq<KindCount>, m: int)
    ensures
        forall|k: int| 0 <= k < spill(pairs, m).len() ==> 1 <= (#[trigger] spill(pairs, m)[k]).len() <= per_node(m),
        forall|k: int, j: int| 0 <= k < spill(pairs, m).len() && 0 <= j < spill(pairs, m)[k].len() ==>
            pairs.contains(#[trigger] spill(pairs, m)[k][j]),
    decreases pairs.len(),
{
    if pairs.len() > per_node(m) {
        let q = per_node(m);
        let rest = pairs.skip(q);
        lemma_spill_parts(rest, m);
        let sp = spill(pairs, m);
        assert(sp == seq![pairs.take(q)] + spill(rest, m));
        assert forall|k: int| 0 <= k < sp.len() implies 1 <= (#[trigger] sp[k]).len() <= per_node(m) by {
            if k > 0 {
                assert(sp[k] == spill(rest, m)[k - 1]);
            }
        }
        assert forall|k: int, j: int| 0 <= k < sp.len() && 0 <= j < sp[k].len() implies pairs.contains(#[trigger] sp[k][j]) by {
            if k == 0 {
                assert(sp[k][j] == pairs[j]);
            } else {
                assert(sp[k] == spill(rest, m)[k - 1]);
                assert(rest.contains(sp[k][j]));
                let t = choose|t: int| 0 <= t < rest.len() && rest[t] == sp[k][j];
                assert(pairs[t + q] == rest[t]);
            }
        }
    } else if pairs.len() > 0 {
        let sp = spill(pairs, m);
        assert(sp == seq![pairs]);
        assert forall|k: int, j: int| 0 <= k < sp.len() && 0 <= j < sp[k].len() implies pairs.contains(#[trigger] sp[k][j]) by {
            assert(sp[k][j] == pairs[j]);
        }
    }
}

proof fn lemma_chunk_nodes_shaped(repo: Seq<char>, c: Seq<EventView>, m: int)
    requires
        c.len() > 0,
        none_standalone(c),
    ensures
        all_shaped(chunk_nodes(repo, c, m), m),
{
    let pairs = pairs_of(c);
    lemma_span_ordered(c);
    lemma_pairs_over_kinds(all_kinds(), c);
    lemma_spill_parts(pairs, m);
    let ns = chunk_nodes(repo, c, m);
    assert forall|k: int| 0 <= k < ns.len() implies node_shape(#[trigger] ns[k], m) by {
        let part = spill(pairs, m)[k];
        assert(ns[k] == chunk_node(repo, c, part));
        assert forall|j: int| 0 <= j < part.len() implies !standalone_kind(#[trigger] part[j].kind) by {
            assert(pairs.contains(part[j]));
            let t = choose|t: int| 0 <= t < pairs.len() && pairs[t] == part[j];
            assert(count_kind(c, pairs[t].kind) > 0);
            if standalone_kind(part[j].kind) {
                lemma_count_kind_absent(c, part[j].kind);
            }
        }
    }
}

proof fn lemma_flatten_member<A>(chs: Seq<Seq<A>>, k: int, j: int)
    requires
        0 <= k < chs.len(),
        0 <= j < chs[k].len(),
    ensures
        chs.flatten().contains(chs[k][j]),
    decreases chs.len(),
{
    let d = chs.drop_last();
    assert(d.push(chs.last()) =~= chs);
    d.lemma_flatten_push(chs.last());
    if k == chs.len() - 1 {
        assert(chs.flatten()[d.flatten().len() + j] == chs[k][j]);
    } else {
        assert(d[k] == chs[k]);
        lemma_flatten_member(d, k, j);
        let t = choose|t: int| 0 <= t < d.flatten().len() && d.flatten()[t] == chs[k][j];
        assert(chs.flatten()[t] == chs[k][j]);
    }
}

proof fn lemma_nodes_of_chunks_shaped(repo: Seq<char>, chs: Seq<Seq<EventView>>, m: int)
    requires
        forall|k: int| 0 <= k < chs.len() ==> (#[trigger] chs[k]).len() > 0 && none_standalone(chs[k]),
    ensures
        all_shaped(nodes_of_chunks(repo, chs, m), m),
    decreases chs.len(),
{
    if chs.len() > 0 {
        let d = chs.drop_last();
        assert forall|k: int| 0 <= k < d.len() implies (#[trigger] d[k]).len() > 0 && none_standalone(d[k]) by {
            assert(d[k] == chs[k]);
        }
        lemma_nodes_of_chunks_shaped(repo, d, m);
        assert(chs[chs.len() - 1].len() > 0);
        lemma_chunk_nodes_shaped(repo, chs.last(), m);
        lemma_shaped_add(nodes_of_chunks(repo, d, m), chunk_nodes(repo, chs.last(), m), m);
    }
}

proof fn lemma_group_nodes_shaped(g: GroupView, cfg: CompressionConfig)
    ensures
        all_shaped(group_nodes(g, cfg), cfg.max_pairs_per_node as int),
{
    let m = cfg.max_pairs_per_node as int;
    let w = cfg.window_secs as int;
    let comp = compressible(g.events);
    let sorted = sort_asc::<RawEvent>(comp);
    let chs = chunks(sorted, w);
    lemma_standalone_nodes_shaped(g.events, m);
    lemma_compressible_none_standalone(g.events);
    crate::order::law_sort_asc::<RawEvent>(comp);
    law_chunks_partition(sorted, w);
    assert forall|k: int| 0 <= k < chs.len() implies (#[trigger] chs[k]).len() > 0 && none_standalone(chs[k]) by {
        assert(windowed(chs[k], w));
        assert forall|j: int| 0 <= j < chs[k].len() implies !standalone_kind(#[trigger] chs[k][j].kind) by {
            broadcast use vstd::seq_lib::group_to_multiset_ensures;
            lemma_flatten_member(chs, k, j);
            let x = chs[k][j];
            assert(sorted.contains(x));
            assert(sorted.to_multiset().count(x) > 0);
            assert(comp.to_multiset().count(x) > 0);
            assert(comp.contains(x));
            let t = choose|t: int| 0 <= t < comp.len() && comp[t] == x;
            assert(!standalone_kind(comp[t].kind));
        }
    }
    lemma_nodes_of_chunks_shaped(g.repo, chs, m);
    lemma_shaped_add(standalone_nodes(g.events), nodes_of_chunks(g.repo, chs, m), m);
}

proof fn lemma_all_nodes_shaped(groups: Seq<GroupView>, cfg: CompressionConfig)
    ensures
        all_shaped(all_nodes(groups, cfg), cfg.max_pairs_per_node as int),
    decreases groups.len(),
{
    if groups.len() > 0 {
        lemma_all_nodes_shaped(groups.drop_last(), cfg);
        lemma_group_nodes_shaped(groups.last(), cfg);
        lemma_shaped_add(all_nodes(groups.drop_last(), cfg), group_nodes(groups.last(), cfg), cfg.max_pairs_per_node as int);
    }
}

/// Law: `compress` keeps every node of every group (as a multiset), lists
/// them newest first, never compresses a standalone event, and gives each
/// grouped node an id made of its repo, its earliest time and its kinds
/// alone, so that compressing the same events again yields the same ids.
pub proof fn law_compress_nodes(groups: Seq<GroupView>, cfg: CompressionConfig)
    ensures
        compressed(groups, cfg).to_multiset() =~= all_nodes(groups, cfg).to_multiset(),
        crate::order::descending::<CompressedNode>(compressed(groups, cfg)),
        all_shaped(compressed(groups, cfg), cfg.max_pairs_per_node as int),
{
    broadcast use vstd::seq_lib::group_to_multiset_ensures;
    let all = all_nodes(groups, cfg);
    let r = compressed(groups, cfg);
    let m = cfg.max_pairs_per_node as int;
    crate::order::law_sort_desc::<CompressedNode>(all);
    lemma_all_nodes_shaped(groups, cfg);
    assert forall|k: int| 0 <= k < r.len() implies node_shape(#[trigger] r[k], m) by {
        let x = r[k];
        assert(r.contains(x));
        assert(r.to_multiset().count(x) > 0);
        assert(all.contains(x));
        let t = choose|t: int| 0 <= t < all.len() && all[t] == x;
        assert(node_shape(all[t], m));
    }
}


/// Whether `b` lies more than `w` whole seconds from `a`, on either side.
pub open spec fn beyond_window(a: EventView, b: EventView, w: int) -> bool {
    secs_since(b.created_at, a.created_at) > w || secs_since(b.created_at, a.created_at) < -w
}

proof fn lemma_chunk_state_maximal(s: Seq<EventView>, w: int)
    ensures
        forall|i: int, j: int| 0 <= i && j == i + 1 && j < chunk_state(s, w).0.len() ==> beyond_window(
            (#[trigger] chunk_state(s, w).0[i])[0],
            (#[trigger] chunk_state(s, w).0[j])[0],
            w,
        ),
        chunk_state(s, w).0.len() > 0 && chunk_state(s, w).1.len() > 0 ==> beyond_window(
            chunk_state(s, w).0.last()[0],
            chunk_state(s, w).1[0],
            w,
        ),
    decreases s.len(),
{
    if s.len() > 0 {
        let d = s.drop_last();
        lemma_chunk_state_maximal(d, w);
        lemma_chunk_state(d, w);
        let st = chunk_state(d, w);
        let e = s.last();
        if st.1.len() == 0 {
        } else if within_window(st.1[0].created_at, e.created_at, w) {
            assert(st.1.push(e)[0] == st.1[0]);
        } else {
            let done = st.0.push(st.1);
            assert forall|i: int, j: int| 0 <= i && j == i + 1 && j < done.len() implies beyond_window(
                (#[trigger] done[i])[0],
                (#[trigger] done[j])[0],
                w,
            ) by {
                if j < st.0.len() {
                    assert(done[i] == st.0[i] && done[j] == st.0[j]);
                } else {
                    assert(done[i] == st.0.last());
                    assert(done[j] == st.1);
                }
            }
            assert(seq![e][0] == e);
        }
    }
}

/// Law: a chunk is closed only by an event outside its window. Of two
/// consecutive chunks of the greedy walk, the first event of the second
/// lies more than `w` whole seconds from the first event of the first.
pub proof fn law_chunks_maximal(s: Seq<EventView>, w: int)
    ensures
        forall|i: int, j: int| 0 <= i && j == i + 1 && j < chunks(s, w).len() ==> beyond_window(
            (#[trigger] chunks(s, w)[i])[0],
            (#[trigger] chunks(s, w)[j])[0],
            w,
        ),
{
    lemma_chunk_state_maximal(s, w);
    let st = chunk_state(s, w);
    if st.1.len() > 0 {
        let c = st.0.push(st.1);
        assert forall|i: int, j: int| 0 <= i && j == i + 1 && j < c.len() implies beyond_window(
            (#[trigger] c[i])[0],
            (#[trigger] c[j])[0],
            w,
        ) by {
            if j < st.0.len() {
                assert(c[i] == st.0[i] && c[j] == st.0[j]);
            } else {
                assert(c[i] == st.0.last());
                assert(c[j] == st.1);
            }
        }
    }
}

/// Law: events that all lie within `w` whole seconds of the first form a
/// single chunk, holding all of them.
pub proof fn law_window_is_one_chunk(s: Seq<EventView>, w: int)
    requires
        s.len() > 0,
        forall|j: int| 0 <= j < s.len() ==> -w <= secs_since((#[trigger] s[j]).created_at, s[0].created_at) <= w,
    ensures
        chunks(s, w) == seq![s],
    decreases s.len(),
{
    lemma_one_open_chunk(s, w);
}

proof fn lemma_one_open_chunk(s: Seq<EventView>, w: int)
    requires
        s.len() > 0,
        forall|j: int| 0 <= j < s.len() ==> -w <= secs_since((#[trigger] s[j]).created_at, s[0].created_at) <= w,
    ensures
        chunk_state(s, w).0.len() == 0,
        chunk_state(s, w).1 == s,
    decreases s.len(),
{
    let d = s.drop_last();
    let e = s.last();
    if d.len() == 0 {
        assert(chunk_state(d, w).1.len() == 0);
        assert(seq![e] =~= s);
    } else {
        assert forall|j: int| 0 <= j < d.len() implies -w <= secs_since((#[trigger] d[j]).created_at, d[0].created_at) <= w by {
            assert(d[j] == s[j] && d[0] == s[0]);
        }
        lemma_one_open_chunk(d, w);
        assert(s[s.len() - 1] == e);
        assert(d[0] == s[0]);
        assert(-w <= secs_since(s[s.len() - 1].created_at, s[0].created_at) <= w);
        assert(within_window(d[0].created_at, e.created_at, w));
        assert(d.push(e) =~= s);
    }
}

} // verus!
