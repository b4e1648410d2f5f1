//! Point-in-time timeline snapshots and diffs used for animations.
use vstd::prelude::*;
use crate::compress::{CompressedNode, KindCount, NodeView};
use crate::humanize::{humanize_range, humanized, magnitude_of, range_label};
use crate::time::secs_since;
use crate::order::vals;

verus! {

/// A stable identifier for a timeline node.
#[derive(Debug, Clone, PartialEq, Eq, Hash)]
pub struct NodeId(pub String);

impl View for NodeId {
    type V = Seq<char>;

    open spec fn view(&self) -> Seq<char> {
        self.0@
    }
}

impl NodeId {
    /// An id with the text `s`.
    pub fn new(s: &str) -> (r: Self)
        ensures
            r@ == s@,
    {
        NodeId(String::from_str(s))
    }

    /// The id's text.
    pub fn as_str(&self) -> (r: &str)
        ensures
            r@ == self@,
    {
        self.0.as_str()
    }

    /// A copy of this id.
    pub fn copy(&self) -> (r: Self)
        ensures
            r@ == self@,
    {
        NodeId(self.0.clone())
    }
}

/// The kind of node (used for visual treatment).
#[derive(Debug, Clone, Copy, PartialEq, Eq, Hash, Structural)]
pub enum NodeKind {
    /// Grouped events (PRs, issues, etc.) — the common case.
    Group,
    /// A rare, important event that stands out (e.g. new repo created).
    Standalone,
}

/// A timeline node in the current view, with the data the renderer needs.
#[derive(Debug, Clone, PartialEq, Eq)]
pub struct TimelineNode {
    pub id: NodeId,
    pub kind: NodeKind,
    pub repo: String,
    /// Compressed pairs from the source node.
    pub pairs: Vec<(KindCount,)>,
    /// Time range as a humanized label ("1-3 hrs ago", "just now", etc).
    pub time_label: String,
    /// Earliest event time (an instant, see `time`).
    pub earliest: i128,
    /// Latest event time (an instant, see `time`).
    pub latest: i128,
    /// Deep-link target. Clicking the node opens this in the default
    /// browser. Falls back to the repo page when no specific event URL
    /// is available.
    pub target_url: String,
}

/// The value of a [`TimelineNode`].
pub struct TimelineView {
    pub id: Seq<char>,
    pub kind: NodeKind,
    pub repo: Seq<char>,
    pub pairs: Seq<(KindCount,)>,
    pub time_label: Seq<char>,
    pub earliest: int,
    pub latest: int,
    pub target_url: Seq<char>,
}

impl View for TimelineNode {
    type V = TimelineView;

    open spec fn view(&self) -> TimelineView {
        TimelineView {
            id: self.id@,
            kind: self.kind,
            repo: self.repo@,
            pairs: self.pairs@,
            time_label: self.time_label@,
            earliest: self.earliest as int,
            latest: self.latest as int,
            target_url: self.target_url@,
        }
    }
}

/// Two nodes agree on everything but their time labels.
pub open spec fn same_content(a: TimelineView, b: TimelineView) -> bool {
    &&& a.id == b.id
    &&& a.kind == b.kind
    &&& a.repo == b.repo
    &&& a.pairs == b.pairs
    &&& a.earliest == b.earliest
    &&& a.latest == b.latest
    &&& a.target_url == b.target_url
}

fn same_pairs(a: &Vec<(KindCount,)>, b: &Vec<(KindCount,)>) -> (r: bool)
    ensures
        r == (a@ == b@),
{
    if a.len() != b.len() {
        return false;
    }
    let n = a.len();
    let mut i: usize = 0;
    while i < n
        invariant
            n == a@.len(),
            n == b@.len(),
            i <= n,
            forall|k: int| 0 <= k < i ==> a@[k] == b@[k],
        decreases n - i,
    {
        if a[i].0.kind != b[i].0.kind || a[i].0.count != b[i].0.count {
            return false;
        }
        i = i + 1;
    }
    assert(a@ =~= b@);
    true
}

impl TimelineNode {
    /// Structural equality for animation diffing. The `time_label`
    /// changes as wall-clock time passes (e.g. "59 mins ago" → "1 hr
    /// ago") without the underlying node having changed, so the diff
    /// must ignore it or every poll would falsely mark every node as
    /// updated.
    pub fn structural_eq(&self, other: &Self) -> (r: bool)
        ensures
            r == same_content(self@, other@),
    {
        self.id.0 == other.id.0 && self.kind == other.kind && self.repo == other.repo && same_pairs(
            &self.pairs,
            &other.pairs,
        ) && self.earliest == other.earliest && self.latest == other.latest && self.target_url
            == other.target_url
    }
}

/// A snapshot of the timeline at a single point in time.
#[derive(Debug, Clone, PartialEq, Eq)]
pub struct TimelineSnapshot {
    /// The nodes in the current snapshot, newest first.
    pub nodes: Vec<TimelineNode>,
}

impl Default for TimelineSnapshot {
    fn default() -> (r: Self)
        ensures
            r.nodes@.len() == 0,
    {
        TimelineSnapshot { nodes: Vec::new() }
    }
}

/// The pairs of a compressed node, each in a one-element tuple.
pub open spec fn tupled(pairs: Seq<KindCount>) -> Seq<(KindCount,)> {
    pairs.map_values(|p: KindCount| (p,))
}

/// The timeline node of the compressed node `n`, labelled as seen at `now`.
pub open spec fn timeline_node_of(n: NodeView, now: int) -> TimelineView {
    TimelineView {
        id: n.id,
        kind: if n.standalone { NodeKind::Standalone } else { NodeKind::Group },
        repo: n.repo,
        pairs: tupled(n.pairs),
        time_label: humanized(n.earliest, n.latest, now).text(),
        earliest: n.earliest,
        latest: n.latest,
        target_url: n.target_url,
    }
}

fn timeline_node(n: CompressedNode, now: i128) -> (r: TimelineNode)
    ensures
        r@ == timeline_node_of(n@, now as int),
{
    let label = humanize_range(n.earliest, n.latest, now);
    let time_label = String::from_str(label.as_str());
    let mut pairs: Vec<(KindCount,)> = Vec::new();
    let mut i: usize = 0;
    while i < n.pairs.len()
        invariant
            i <= n.pairs@.len(),
            pairs@ == tupled(n.pairs@.take(i as int)),
        decreases n.pairs@.len() - i,
    {
        pairs.push((n.pairs[i],));
        assert(pairs@ =~= tupled(n.pairs@.take(i + 1)));
        i = i + 1;
    }
    assert(n.pairs@.take(n.pairs@.len() as int) =~= n.pairs@);
    let kind = if n.standalone { NodeKind::Standalone } else { NodeKind::Group };
    TimelineNode {
        id: NodeId(n.id),
        kind,
        repo: n.repo,
        pairs,
        time_label,
        earliest: n.earliest,
        latest: n.latest,
        target_url: n.target_url,
    }
}

impl TimelineSnapshot {
    /// Build a snapshot from compressed nodes and a "now" instant
    /// used to compute the humanized time label for each node.
    pub fn from_compressed(compressed: Vec<CompressedNode>, now: i128) -> (r: Self)
        ensures
            vals(r.nodes@) == vals(compressed@).map_values(|n: NodeView| timeline_node_of(n, now as int)),
    {
        let ghost src = vals(compressed@);
        let mut rest = compressed;
        let mut nodes: Vec<TimelineNode> = Vec::new();
        let n = rest.len();
        let mut i: usize = 0;
        while i < n
            invariant
                n == src.len(),
                i <= n,
                rest@.len() == n - i,
                forall|t: int| 0 <= t < n - i ==> #[trigger] rest@[t]@ == src[i + t],
                nodes@.len() == i,
                forall|t: int| 0 <= t < i ==> #[trigger] nodes@[t]@ == timeline_node_of(src[t], now as int),
            decreases n - i,
        {
            assert(rest@[0]@ == src[i + 0]);
            let ghost old_rest = rest@;
            let c = rest.remove(0);
            assert forall|t: int| 0 <= t < n - (i + 1) implies #[trigger] rest@[t]@ == src[(i + 1) + t] by {
                assert(rest@[t] == old_rest[t + 1]);
                assert(old_rest[t + 1]@ == src[i + (t + 1)]);
            }
            nodes.push(timeline_node(c, now));
            i = i + 1;
        }
        assert(vals(nodes@) =~= src.map_values(|n: NodeView| timeline_node_of(n, now as int)));
        TimelineSnapshot { nodes }
    }
}

/// What happened between two snapshots: a list of new node ids and a list
/// of updated node ids. Used to drive animations (fade-in for new,
/// pulse for updated).
#[derive(Debug, Clone, PartialEq, Eq)]
pub struct SnapshotDiff {
    /// Nodes that exist in `next` but not in `prev` (by id).
    pub added: Vec<NodeId>,
    /// Nodes that exist in both but whose content changed.
    pub updated: Vec<NodeId>,
    /// Nodes that exist in `prev` but not in `next`.
    pub removed: Vec<NodeId>,
}

impl Default for SnapshotDiff {
    fn default() -> (r: Self)
        ensures
            r.added@.len() == 0,
            r.updated@.len() == 0,
            r.removed@.len() == 0,
    {
        SnapshotDiff { added: Vec::new(), updated: Vec::new(), removed: Vec::new() }
    }
}

/// The ids of `s`, each once, in the order they first appear.
pub open spec fn ids_in_order(s: Seq<TimelineView>) -> Seq<Seq<char>>
    decreases s.len(),
{
    if s.len() == 0 {
        Seq::empty()
    } else {
        let p = ids_in_order(s.drop_last());
        if p.contains(s.last().id) { p } else { p.push(s.last().id) }
    }
}

/// The position of the last node of `s` with id `id` (-1 when none has it);
/// a snapshot indexed by id keeps that node.
pub open spec fn last_index(s: Seq<TimelineView>, id: Seq<char>) -> int
    decreases s.len(),
{
    if s.len() == 0 {
        -1
    } else if s.last().id == id {
        s.len() - 1
    } else {
        last_index(s.drop_last(), id)
    }
}

/// The ids among `ids` that `prev` lacks.
pub open spec fn added_ids(ids: Seq<Seq<char>>, prev: Seq<TimelineView>) -> Seq<Seq<char>>
    decreases ids.len(),
{
    if ids.len() == 0 {
        Seq::empty()
    } else {
        let p = added_ids(ids.drop_last(), prev);
        if last_index(prev, ids.last()) < 0 { p.push(ids.last()) } else { p }
    }
}

/// The ids among `ids` that `prev` has with content other than in `next`.
pub open spec fn updated_ids(ids: Seq<Seq<char>>, prev: Seq<TimelineView>, next: Seq<TimelineView>) -> Seq<Seq<char>>
    decreases ids.len(),
{
    if ids.len() == 0 {
        Seq::empty()
    } else {
        let p = updated_ids(ids.drop_last(), prev, next);
        let id = ids.last();
        if last_index(prev, id) >= 0 && !same_content(prev[last_index(prev, id)], next[last_index(next, id)]) {
            p.push(id)
        } else {
            p
        }
    }
}

/// What `diff` finds from `prev` to `next`: the ids of `next` that `prev`
/// lacks, the ids of both whose node changed in anything but its time
/// label, and the ids of `prev` that `next` lacks; each list in the order
/// in which its ids first appear.
pub open spec fn diff_of(prev: Seq<TimelineView>, next: Seq<TimelineView>) -> (Seq<Seq<char>>, Seq<Seq<char>>, Seq<Seq<char>>) {
    (
        added_ids(ids_in_order(next), prev),
        updated_ids(ids_in_order(next), prev, next),
        added_ids(ids_in_order(prev), next),
    )
}

fn contains_id(ids: &Vec<NodeId>, id: &NodeId) -> (r: bool)
    ensures
        r == vals(ids@).contains(id@),
{
    let n = ids.len();
    let mut j: usize = 0;
    while j < n
        invariant
            n == ids@.len(),
            j <= n,
            forall|k: int| 0 <= k < j ==> ids@[k]@ != id@,
        decreases n - j,
    {
        if ids[j].0 == id.0 {
            assert(vals(ids@)[j as int] == id@);
            return true;
        }
        j = j + 1;
    }
    assert(!vals(ids@).contains(id@)) by {
        if vals(ids@).contains(id@) {
            let k = choose|k: int| 0 <= k < vals(ids@).len() && vals(ids@)[k] == id@;
            assert(ids@[k]@ == id@);
        }
    }
    false
}

fn distinct_ids(nodes: &Vec<TimelineNode>) -> (r: Vec<NodeId>)
    ensures
        vals(r@) == ids_in_order(vals(nodes@)),
{
    let ghost s = vals(nodes@);
    let n = nodes.len();
    let mut ids: Vec<NodeId> = Vec::new();
    let mut i: usize = 0;
    while i < n
        invariant
            n == nodes@.len(),
            s == vals(nodes@),
            i <= n,
            vals(ids@) == ids_in_order(s.take(i as int)),
        decreases n - i,
    {
        assert(s.take(i + 1).drop_last() =~= s.take(i as int));
        assert(s.take(i + 1).last() == nodes@[i as int]@);
        if !contains_id(&ids, &nodes[i].id) {
            let ghost before = ids@;
            ids.push(nodes[i].id.copy());
            assert(vals(ids@) =~= vals(before).push(nodes@[i as int].id@));
        }
        i = i + 1;
    }
    assert(s.take(n as int) =~= s);
    ids
}

fn find_last(nodes: &Vec<TimelineNode>, id: &NodeId) -> (r: Option<usize>)
    ensures
        match r {
            Some(i) => i as int == last_index(vals(nodes@), id@) && i < nodes@.len(),
            None => last_index(vals(nodes@), id@) < 0,
        },
{
    let ghost s = vals(nodes@);
    let mut i: usize = nodes.len();
    assert(s.take(i as int) =~= s);
    while i > 0
        invariant
            s == vals(nodes@),
            i <= nodes@.len(),
            last_index(s, id@) == last_index(s.take(i as int), id@),
        decreases i,
    {
        assert(s.take(i as int).drop_last() =~= s.take(i - 1));
        assert(s.take(i as int).last() == nodes@[i - 1]@);
        if nodes[i - 1].id.0 == id.0 {
            return Some(i - 1);
        }
        i = i - 1;
    }
    None
}

proof fn lemma_ids_present(s: Seq<TimelineView>)
    ensures
        forall|k: int| 0 <= k < ids_in_order(s).len() ==> last_index(s, #[trigger] ids_in_order(s)[k]) >= 0,
    decreases s.len(),
{
    if s.len() > 0 {
        let d = s.drop_last();
        lemma_ids_present(d);
        let p = ids_in_order(d);
        assert forall|k: int| 0 <= k < ids_in_order(s).len() implies last_index(s, #[trigger] ids_in_order(s)[k]) >= 0 by {
            if k < p.len() {
                assert(ids_in_order(s)[k] == p[k]);
                assert(last_index(d, p[k]) >= 0);
            }
        }
    }
}

proof fn lemma_last_index_bounds(s: Seq<TimelineView>, id: Seq<char>)
    ensures
        -1 <= last_index(s, id) < s.len(),
        last_index(s, id) >= 0 ==> s[last_index(s, id)].id == id,
    decreases s.len(),
{
    if s.len() > 0 && s.last().id != id {
        lemma_last_index_bounds(s.drop_last(), id);
    }
}

/// Compute the diff from `prev` to `next`. The "updated" set ignores
/// `time_label` so that a node whose humanized label rolls over ("59
/// mins ago" → "1 hr ago") is not falsely marked as updated on every
/// poll.
pub fn diff(prev: &TimelineSnapshot, next: &TimelineSnapshot) -> (d: SnapshotDiff)
    ensures
        (vals(d.added@), vals(d.updated@), vals(d.removed@)) == diff_of(vals(prev.nodes@), vals(next.nodes@)),
{
    let ghost p = vals(prev.nodes@);
    let ghost q = vals(next.nodes@);
    let next_ids = distinct_ids(&next.nodes);
    assert(vals(next_ids@) == ids_in_order(q));
    let prev_ids = distinct_ids(&prev.nodes);
    let mut added: Vec<NodeId> = Vec::new();
    let mut updated: Vec<NodeId> = Vec::new();
    let n = next_ids.len();
    let mut i: usize = 0;
    while i < n
        invariant
            n == next_ids@.len(),
            p == vals(prev.nodes@),
            q == vals(next.nodes@),
            i <= n,
            vals(next_ids@) == ids_in_order(q),
            vals(added@) == added_ids(vals(next_ids@).take(i as int), p),
            vals(updated@) == updated_ids(vals(next_ids@).take(i as int), p, q),
        decreases n - i,
    {
        let ghost ids = vals(next_ids@);
        assert(ids.take(i + 1).drop_last() =~= ids.take(i as int));
        assert(ids.take(i + 1).last() == next_ids@[i as int]@);
        let id = &next_ids[i];
        match find_last(&prev.nodes, id) {
            None => {
                let ghost before = added@;
                added.push(id.copy());
                assert(vals(added@) =~= vals(before).push(id@));
            },
            Some(a) => {
                proof {
                    lemma_last_index_bounds(q, id@);
                }
                match find_last(&next.nodes, id) {
                    Some(b) => {
                        if !prev.nodes[a].structural_eq(&next.nodes[b]) {
                            let ghost before = updated@;
                            updated.push(id.copy());
                            assert(vals(updated@) =~= vals(before).push(id@));
                        }
                    },
                    None => {
                        proof {
                            lemma_ids_present(q);
                            assert(ids[i as int] == ids_in_order(q)[i as int]);
                            assert(false);
                        }
                    },
                }
            },
        }
        i = i + 1;
    }
    let mut removed: Vec<NodeId> = Vec::new();
    let m = prev_ids.len();
    let mut j: usize = 0;
    while j < m
        invariant
            m == prev_ids@.len(),
            q == vals(next.nodes@),
            j <= m,
            vals(removed@) == added_ids(vals(prev_ids@).take(j as int), q),
        decreases m - j,
    {
        let ghost ids = vals(prev_ids@);
        assert(ids.take(j + 1).drop_last() =~= ids.take(j as int));
        assert(ids.take(j + 1).last() == prev_ids@[j as int]@);
        let id = &prev_ids[j];
        if find_last(&next.nodes, id).is_none() {
            let ghost before = removed@;
            removed.push(id.copy());
            assert(vals(removed@) =~= vals(before).push(id@));
        }
        j = j + 1;
    }
    assert(vals(next_ids@).take(n as int) =~= vals(next_ids@));
    assert(vals(prev_ids@).take(m as int) =~= vals(prev_ids@));
    SnapshotDiff { added, updated, removed }
}

/// Some node of `s` has id `id`.
pub open spec fn has_id(s: Seq<TimelineView>, id: Seq<char>) -> bool {
    last_index(s, id) >= 0
}

/// The node of `s` that an index by id keeps for `id`.
pub open spec fn node_for(s: Seq<TimelineView>, id: Seq<char>) -> TimelineView {
    s[last_index(s, id)]
}

proof fn lemma_ids_contains(s: Seq<TimelineView>, x: Seq<char>)
    ensures
        ids_in_order(s).contains(x) <==> has_id(s, x),
    decreases s.len(),
{
    if s.len() > 0 {
        let d = s.drop_last();
        lemma_ids_contains(d, x);
        let p = ids_in_order(d);
        if !p.contains(s.last().id) {
            let q = p.push(s.last().id);
            if q.contains(x) && x != s.last().id {
                let k = choose|k: int| 0 <= k < q.len() && q[k] == x;
                assert(p[k] == x);
            }
            if p.contains(x) {
                let k = choose|k: int| 0 <= k < p.len() && p[k] == x;
                assert(q[k] == x);
            }
            if x == s.last().id {
                assert(q[q.len() - 1] == x);
            }
        }
    }
}

proof fn lemma_added_contains(ids: Seq<Seq<char>>, prev: Seq<TimelineView>, x: Seq<char>)
    ensures
        added_ids(ids, prev).contains(x) <==> ids.contains(x) && !has_id(prev, x),
    decreases ids.len(),
{
    if ids.len() > 0 {
        let d = ids.drop_last();
        lemma_added_contains(d, prev, x);
        let p = added_ids(d, prev);
        let r = added_ids(ids, prev);
        if ids.contains(x) && x != ids.last() {
            let k = choose|k: int| 0 <= k < ids.len() && ids[k] == x;
            assert(d[k] == x);
        }
        if d.contains(x) {
            let k = choose|k: int| 0 <= k < d.len() && d[k] == x;
            assert(ids[k] == x);
        }
        if x == ids.last() {
            assert(ids[ids.len() - 1] == x);
        }
        if r != p {
            assert(r == p.push(ids.last()));
            if r.contains(x) && x != ids.last() {
                let k = choose|k: int| 0 <= k < r.len() && r[k] == x;
                assert(p[k] == x);
            }
            if p.contains(x) {
                let k = choose|k: int| 0 <= k < p.len() && p[k] == x;
                assert(r[k] == x);
            }
            if x == ids.last() {
                assert(r[r.len() - 1] == x);
            }
        }
    }
}

proof fn lemma_updated_contains(ids: Seq<Seq<char>>, prev: Seq<TimelineView>, next: Seq<TimelineView>, x: Seq<char>)
    ensures
        updated_ids(ids, prev, next).contains(x) <==> ids.contains(x) && has_id(prev, x)
            && !same_content(node_for(prev, x), node_for(next, x)),
    decreases ids.len(),
{
    if ids.len() > 0 {
        let d = ids.drop_last();
        lemma_updated_contains(d, prev, next, x);
        let p = updated_ids(d, prev, next);
        let r = updated_ids(ids, prev, next);
        if ids.contains(x) && x != ids.last() {
            let k = choose|k: int| 0 <= k < ids.len() && ids[k] == x;
            assert(d[k] == x);
        }
        if d.contains(x) {
            let k = choose|k: int| 0 <= k < d.len() && d[k] == x;
            assert(ids[k] == x);
        }
        if x == ids.last() {
            assert(ids[ids.len() - 1] == x);
        }
        if r != p {
            assert(r == p.push(ids.last()));
            if r.contains(x) && x != ids.last() {
                let k = choose|k: int| 0 <= k < r.len() && r[k] == x;
                assert(p[k] == x);
            }
            if p.contains(x) {
                let k = choose|k: int| 0 <= k < p.len() && p[k] == x;
                assert(r[k] == x);
            }
            if x == ids.last() {
                assert(r[r.len() - 1] == x);
            }
        }
    }
}

/// Law: `diff` sorts ids into three kinds. An id is added exactly when
/// `next` has it and `prev` does not; removed exactly when `prev` has it
/// and `next` does not; updated exactly when both have it and the nodes
/// kept for it differ in anything but their time labels.
pub proof fn law_diff_membership(prev: Seq<TimelineView>, next: Seq<TimelineView>, x: Seq<char>)
    ensures
        diff_of(prev, next).0.contains(x) <==> has_id(next, x) && !has_id(prev, x),
        diff_of(prev, next).1.contains(x) <==> has_id(next, x) && has_id(prev, x)
            && !same_content(node_for(prev, x), node_for(next, x)),
        diff_of(prev, next).2.contains(x) <==> has_id(prev, x) && !has_id(next, x),
{
    lemma_ids_contains(next, x);
    lemma_ids_contains(prev, x);
    lemma_added_contains(ids_in_order(next), prev, x);
    lemma_updated_contains(ids_in_order(next), prev, next, x);
    lemma_added_contains(ids_in_order(prev), next, x);
}

proof fn lemma_same_ids_last_index(prev: Seq<TimelineView>, next: Seq<TimelineView>, x: Seq<char>)
    requires
        prev.len() == next.len(),
        forall|k: int| 0 <= k < prev.len() ==> same_content(#[trigger] prev[k], next[k]),
    ensures
        last_index(prev, x) == last_index(next, x),
    decreases prev.len(),
{
    if prev.len() > 0 {
        let a = prev.drop_last();
        let b = next.drop_last();
        assert forall|k: int| 0 <= k < a.len() implies same_content(#[trigger] a[k], b[k]) by {
            assert(a[k] == prev[k]);
            assert(b[k] == next[k]);
        }
        assert(same_content(prev[prev.len() - 1], next[next.len() - 1]));
        lemma_same_ids_last_index(a, b, x);
    }
}

/// Law: snapshots whose nodes agree in everything but their time labels
/// (in particular a snapshot and itself) differ in nothing: the diff has no
/// added, updated or removed ids.
pub proof fn law_diff_ignores_labels(prev: Seq<TimelineView>, next: Seq<TimelineView>)
    requires
        prev.len() == next.len(),
        forall|k: int| 0 <= k < prev.len() ==> same_content(#[trigger] prev[k], next[k]),
    ensures
        diff_of(prev, next).0.len() == 0,
        diff_of(prev, next).1.len() == 0,
        diff_of(prev, next).2.len() == 0,
{
    let d = diff_of(prev, next);
    assert forall|x: Seq<char>| !d.0.contains(x) && !d.1.contains(x) && !d.2.contains(x) by {
        law_diff_membership(prev, next, x);
        lemma_same_ids_last_index(prev, next, x);
        lemma_last_index_bounds(prev, x);
    }
    if d.0.len() > 0 {
        assert(d.0.contains(d.0[0]));
    }
    if d.1.len() > 0 {
        assert(d.1.contains(d.1[0]));
    }
    if d.2.len() > 0 {
        assert(d.2.contains(d.2[0]));
    }
}

/// `has_id` holds exactly when some node of `s` has the id.
pub proof fn lemma_has_id_scan(s: Seq<TimelineView>, id: Seq<char>)
    ensures
        has_id(s, id) <==> exists|k: int| 0 <= k < s.len() && s[k].id == id,
    decreases s.len(),
{
    lemma_last_index_bounds(s, id);
    if s.len() > 0 {
        let d = s.drop_last();
        lemma_has_id_scan(d, id);
        if exists|k: int| 0 <= k < s.len() && s[k].id == id {
            let k = choose|k: int| 0 <= k < s.len() && s[k].id == id;
            if k < s.len() - 1 {
                assert(d[k] == s[k]);
            }
        }
        if has_id(d, id) {
            let k = choose|k: int| 0 <= k < d.len() && d[k].id == id;
            assert(s[k] == d[k]);
        }
    }
}


/// Law: a snapshot node's time label humanizes the span from the node's
/// earliest to its latest time, seen from `now`. So when the two ends lie
/// a minute or more apart and have the same unit and direction but
/// different counts, the label is the range between the two counts
/// (e.g. ends one and three hours old give "1-3 hrs ago").
pub proof fn law_node_label_spans_both_ends(n: NodeView, now: int)
    ensures
        timeline_node_of(n, now).time_label == humanized(n.earliest, n.latest, now).text(),
        timeline_node_of(n, now).earliest == n.earliest,
        timeline_node_of(n, now).latest == n.latest,
        match (magnitude_of(n.earliest, now), magnitude_of(n.latest, now)) {
            (Some(a), Some(b)) => (secs_since(n.latest, n.earliest) >= 60 || secs_since(n.latest, n.earliest) <= -60)
                && a.unit == b.unit && a.direction == b.direction && a.n != b.n ==> timeline_node_of(n, now).time_label
                == range_label(
                if a.n < b.n { a.n as nat } else { b.n as nat },
                if a.n < b.n { b.n as nat } else { a.n as nat },
                a.unit,
                a.direction,
            ),
            _ => true,
        },
{
}

} // verus!
