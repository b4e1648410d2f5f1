//! Group raw GitHub events by repo for timeline rendering.
use vstd::prelude::*;
use crate::events::{RawEvent, EventView};
use crate::order::{TimeKey, vals, sort_asc, sort_desc, sort_ascending, sort_descending};

verus! {

/// A group of events from a single repo, in chronological order.
#[derive(Debug, Clone, PartialEq, Eq)]
pub struct RepoGroup {
    /// "owner/name"
    pub repo: String,
    /// Events in this group, oldest first.
    pub events: Vec<RawEvent>,
}

/// The value of a [`RepoGroup`].
pub struct GroupView {
    pub repo: Seq<char>,
    pub events: Seq<EventView>,
}

impl View for RepoGroup {
    type V = GroupView;

    open spec fn view(&self) -> GroupView {
        GroupView { repo: self.repo@, events: vals(self.events@) }
    }
}

/// The time of the most recent event (`i128::MIN` for no events).
pub open spec fn latest_time(evs: Seq<EventView>) -> int
    decreases evs.len(),
{
    if evs.len() == 0 {
        i128::MIN as int
    } else {
        let t = latest_time(evs.drop_last());
        if evs.last().created_at > t { evs.last().created_at } else { t }
    }
}

impl TimeKey for RepoGroup {
    open spec fn key(v: GroupView) -> int {
        latest_time(v.events)
    }

    fn time_key(&self) -> (t: i128) {
        let n = self.events.len();
        let mut best: i128 = i128::MIN;
        let mut i: usize = 0;
        while i < n
            invariant
                n == self.events@.len(),
                i <= n,
                best as int == latest_time(vals(self.events@).take(i as int)),
            decreases n - i,
        {
            assert(vals(self.events@).take(i + 1).drop_last() =~= vals(self.events@).take(i as int));
            if self.events[i].created_at > best {
                best = self.events[i].created_at;
            }
            i = i + 1;
        }
        assert(vals(self.events@).take(n as int) =~= vals(self.events@));
        best
    }
}

/// The repos of `evs`, each once, in the order they first appear.
pub open spec fn repos_in_order(evs: Seq<EventView>) -> Seq<Seq<char>>
    decreases evs.len(),
{
    if evs.len() == 0 {
        Seq::empty()
    } else {
        let p = repos_in_order(evs.drop_last());
        if p.contains(evs.last().repo) { p } else { p.push(evs.last().repo) }
    }
}

/// The events of `evs` from `repo`, in input order.
pub open spec fn events_of(evs: Seq<EventView>, repo: Seq<char>) -> Seq<EventView>
    decreases evs.len(),
{
    if evs.len() == 0 {
        Seq::empty()
    } else {
        let p = events_of(evs.drop_last(), repo);
        if evs.last().repo == repo { p.push(evs.last()) } else { p }
    }
}

/// One group per repo, in order of first appearance, events in input order.
pub open spec fn raw_groups(evs: Seq<EventView>) -> Seq<GroupView> {
    repos_in_order(evs).map_values(|r: Seq<char>| GroupView { repo: r, events: events_of(evs, r) })
}

/// The groups of `evs` with each group's events oldest first.
pub open spec fn chrono_groups(evs: Seq<EventView>) -> Seq<GroupView> {
    raw_groups(evs).map_values(|g: GroupView| chrono_group(g))
}

/// `g` with its events oldest first.
pub open spec fn chrono_group(g: GroupView) -> GroupView {
    GroupView { repo: g.repo, events: sort_asc::<RawEvent>(g.events) }
}

/// What `group_by_repo` returns: one group per repo, each holding that
/// repo's events oldest first, the group with the most recent event first
/// (groups whose latest events are equally recent keep the order in which
/// their repos first appear).
pub open spec fn grouped(evs: Seq<EventView>) -> Seq<GroupView> {
    sort_desc::<RepoGroup>(chrono_groups(evs))
}

proof fn lemma_repos_distinct(evs: Seq<EventView>)
    ensures
        repos_in_order(evs).no_duplicates(),
    decreases evs.len(),
{
    if evs.len() > 0 {
        lemma_repos_distinct(evs.drop_last());
    }
}

fn find_group(groups: &Vec<RepoGroup>, repo: &String) -> (r: Option<usize>)
    ensures
        match r {
            Some(j) => j < groups@.len() && groups@[j as int].repo@ == repo@,
            None => forall|k: int| 0 <= k < groups@.len() ==> groups@[k].repo@ != repo@,
        },
{
    let n = groups.len();
    let mut j: usize = 0;
    while j < n
        invariant
            n == groups@.len(),
            j <= n,
            forall|k: int| 0 <= k < j ==> groups@[k].repo@ != repo@,
        decreases n - j,
    {
        if groups[j].repo == *repo {
            return Some(j);
        }
        j = j + 1;
    }
    None
}

/// Group `events` by `repo_full_name`. Each group holds its repo's events
/// oldest first; the groups are ordered by their most recent event, newest
/// group first.
pub fn group_by_repo(events: Vec<RawEvent>) -> (r: Vec<RepoGroup>)
    ensures
        vals(r@) == grouped(vals(events@)),
{
    let ghost evs = vals(events@);
    let n = events.len();
    let mut groups: Vec<RepoGroup> = Vec::new();
    let mut i: usize = 0;
    assert(vals(groups@) =~= raw_groups(evs.take(0)));
    while i < n
        invariant
            n == events@.len(),
            evs == vals(events@),
            i <= n,
            vals(groups@) == raw_groups(evs.take(i as int)),
        decreases n - i,
    {
        let ghost pre = evs.take(i as int);
        let ghost post = evs.take(i + 1);
        assert(post.drop_last() =~= pre);
        assert(post.last() == events@[i as int]@);
        proof {
            lemma_repos_distinct(pre);
        }
        let e = events[i].copy();
        let ghost ev = e@;
        let ghost rp = repos_in_order(pre);
        match find_group(&groups, &e.repo_full_name) {
            Some(j) => {
                assert(vals(groups@).len() == groups@.len());
                assert(raw_groups(pre).len() == rp.len());
                assert(vals(groups@)[j as int] == raw_groups(pre)[j as int]);
                assert(vals(groups@)[j as int].repo == groups@[j as int].repo@);
                assert(raw_groups(pre)[j as int].repo == rp[j as int]);
                assert(rp[j as int] == ev.repo);
                assert(rp.contains(ev.repo));
                assert(repos_in_order(post) == rp);
                let ghost old_groups = vals(groups@);
                let mut g = groups.remove(j);
                g.events.push(e);
                groups.insert(j, g);
                assert forall|k: int| 0 <= k < rp.len() implies
                    #[trigger] vals(groups@)[k] == raw_groups(post)[k] by {
                    if k == j {
                        assert(vals(g.events@) =~= events_of(pre, ev.repo).push(ev));
                    } else {
                        assert(rp[k] != rp[j as int]);
                        assert(vals(groups@)[k] == old_groups[k]);
                    }
                }
                assert(vals(groups@) =~= raw_groups(post));
            },
            None => {
                assert(!rp.contains(ev.repo)) by {
                    if rp.contains(ev.repo) {
                        let k = choose|k: int| 0 <= k < rp.len() && rp[k] == ev.repo;
                        assert(vals(groups@)[k] == raw_groups(pre)[k]);
                        assert(vals(groups@)[k].repo == groups@[k].repo@);
                        assert(raw_groups(pre)[k].repo == rp[k]);
                    }
                }
                let ghost old_groups = vals(groups@);
                let repo = e.repo_full_name();
                let mut evs_new: Vec<RawEvent> = Vec::new();
                evs_new.push(e);
                groups.push(RepoGroup { repo, events: evs_new });
                assert forall|k: int| 0 <= k < rp.len() + 1 implies
                    #[trigger] vals(groups@)[k] == raw_groups(post)[k] by {
                    if k == rp.len() {
                        assert(events_of(pre, ev.repo) =~= Seq::<EventView>::empty()) by {
                            lemma_events_of_absent(pre, ev.repo);
                        }
                        assert(vals(groups@[k].events@) =~= seq![ev]);
                    } else {
                        assert(rp[k] != ev.repo);
                        assert(vals(groups@)[k] == old_groups[k]);
                    }
                }
                assert(vals(groups@) =~= raw_groups(post));
            },
        }
        i = i + 1;
    }
    assert(evs.take(n as int) =~= evs);
    let ghost raw = vals(groups@);
    let mut src = groups;
    let mut dst: Vec<RepoGroup> = Vec::new();
    let m = src.len();
    let mut k: usize = 0;
    while k < m
        invariant
            m == raw.len(),
            k <= m,
            raw == raw_groups(evs),
            src@.len() == m - k,
            forall|t: int| 0 <= t < m - k ==> #[trigger] src@[t]@ == raw[k + t],
            dst@.len() == k,
            forall|t: int| 0 <= t < k ==> #[trigger] dst@[t]@ == chrono_group(raw[t]),
        decreases m - k,
    {
        assert(src@[0]@ == raw[k + 0]);
        let ghost old_src = src@;
        let g = src.remove(0);
        assert forall|t: int| 0 <= t < m - (k + 1) implies #[trigger] src@[t]@ == raw[(k + 1) + t] by {
            assert(src@[t] == old_src[t + 1]);
            assert(old_src[t + 1]@ == raw[k + (t + 1)]);
        }
        let sorted = sort_ascending(g.events);
        dst.push(RepoGroup { repo: g.repo, events: sorted });
        k = k + 1;
    }
    assert(vals(dst@) =~= chrono_groups(evs));
    sort_descending(dst)
}

proof fn lemma_repos_grow(evs: Seq<EventView>)
    requires
        evs.len() > 0,
    ensures
        forall|x: Seq<char>| repos_in_order(evs.drop_last()).contains(x) ==> repos_in_order(evs).contains(x),
        repos_in_order(evs).contains(evs.last().repo),
{
    let p = repos_in_order(evs.drop_last());
    let full = repos_in_order(evs);
    if !p.contains(evs.last().repo) {
        assert(full == p.push(evs.last().repo));
        assert(full[full.len() - 1] == evs.last().repo);
        assert forall|x: Seq<char>| p.contains(x) implies full.contains(x) by {
            let k = choose|k: int| 0 <= k < p.len() && p[k] == x;
            assert(full[k] == x);
        }
    }
}

proof fn lemma_events_of_absent(evs: Seq<EventView>, repo: Seq<char>)
    requires
        !repos_in_order(evs).contains(repo),
    ensures
        events_of(evs, repo).len() == 0,
    decreases evs.len(),
{
    if evs.len() > 0 {
        lemma_repos_grow(evs);
        lemma_events_of_absent(evs.drop_last(), repo);
    }
}

proof fn lemma_events_of_len(evs: Seq<EventView>, repo: Seq<char>)
    ensures
        events_of(evs, repo).len() <= evs.len(),
    decreases evs.len(),
{
    if evs.len() > 0 {
        lemma_events_of_len(evs.drop_last(), repo);
    }
}

/// No group holds more events than there are: every group of
/// `grouped(evs)` has at most `evs.len()` events.
pub proof fn lemma_group_sizes(evs: Seq<EventView>)
    ensures
        forall|k: int| 0 <= k < grouped(evs).len() ==> (#[trigger] grouped(evs)[k]).events.len() <= evs.len(),
{
    broadcast use vstd::seq_lib::group_to_multiset_ensures;
    let cg = chrono_groups(evs);
    let rg = raw_groups(evs);
    let rp = repos_in_order(evs);
    assert forall|j: int| 0 <= j < cg.len() implies (#[trigger] cg[j]).events.len() <= evs.len() by {
        assert(rg[j] == GroupView { repo: rp[j], events: events_of(evs, rp[j]) });
        lemma_events_of_len(evs, rp[j]);
        crate::order::law_sort_asc::<RawEvent>(rg[j].events);
        assert(cg[j] == chrono_group(rg[j]));
    }
    crate::order::law_sort_desc::<RepoGroup>(cg);
    let g = grouped(evs);
    assert forall|k: int| 0 <= k < g.len() implies (#[trigger] g[k]).events.len() <= evs.len() by {
        let x = g[k];
        assert(g.contains(x));
        assert(g.to_multiset().count(x) > 0);
        assert(cg.contains(x));
        let j = choose|j: int| 0 <= j < cg.len() && cg[j] == x;
        assert(cg[j].events.len() <= evs.len());
    }
}

proof fn lemma_events_of_present(evs: Seq<EventView>, r: Seq<char>)
    requires
        repos_in_order(evs).contains(r),
    ensures
        events_of(evs, r).len() > 0,
    decreases evs.len(),
{
    if evs.len() > 0 {
        let d = evs.drop_last();
        if evs.last().repo != r {
            let p = repos_in_order(d);
            if !p.contains(evs.last().repo) {
                let full = p.push(evs.last().repo);
                let k = choose|k: int| 0 <= k < full.len() && full[k] == r;
                assert(p[k] == r);
            }
            lemma_events_of_present(d, r);
        }
    }
}

proof fn lemma_events_of_repo(evs: Seq<EventView>, r: Seq<char>)
    ensures
        forall|j: int| 0 <= j < events_of(evs, r).len() ==> (#[trigger] events_of(evs, r)[j]).repo == r,
    decreases evs.len(),
{
    if evs.len() > 0 {
        lemma_events_of_repo(evs.drop_last(), r);
        let p = events_of(evs.drop_last(), r);
        if evs.last().repo == r {
            assert forall|j: int| 0 <= j < p.push(evs.last()).len() implies (#[trigger] p.push(evs.last())[j]).repo == r by {
                if j < p.len() {
                    assert(p.push(evs.last())[j] == p[j]);
                }
            }
        }
    }
}

proof fn lemma_repo_listed(evs: Seq<EventView>, i: int)
    requires
        0 <= i < evs.len(),
    ensures
        repos_in_order(evs).contains(evs[i].repo),
    decreases evs.len(),
{
    lemma_repos_grow(evs);
    if i < evs.len() - 1 {
        let d = evs.drop_last();
        assert(d[i] == evs[i]);
        lemma_repo_listed(d, i);
    }
}

/// Law: grouping partitions the events by repo. There is one group per
/// repo of the input and no two groups share a repo; each group holds
/// exactly its repo's events (as a multiset, at least one), oldest
/// first; and the groups come newest first by their latest event.
pub proof fn law_group_by_repo(evs: Seq<EventView>)
    ensures
        crate::order::descending::<RepoGroup>(grouped(evs)),
        forall|k: int| 0 <= k < grouped(evs).len() ==> crate::order::ascending::<RawEvent>(#[trigger] grouped(evs)[k].events),
        forall|k: int| 0 <= k < grouped(evs).len() ==> (#[trigger] grouped(evs)[k]).events.len() > 0
            && grouped(evs)[k].events.to_multiset() =~= events_of(evs, grouped(evs)[k].repo).to_multiset(),
        forall|k1: int, k2: int| 0 <= k1 < k2 < grouped(evs).len() ==> (#[trigger] grouped(evs)[k1]).repo != (#[trigger] grouped(evs)[k2]).repo,
        forall|i: int| 0 <= i < evs.len() ==> exists|k: int| 0 <= k < grouped(evs).len() && (#[trigger] grouped(evs)[k]).repo == (#[trigger] evs[i]).repo,
{
    broadcast use vstd::seq_lib::group_to_multiset_ensures;
    let cg = chrono_groups(evs);
    let rg = raw_groups(evs);
    let rp = repos_in_order(evs);
    let g = grouped(evs);
    lemma_repos_distinct(evs);
    assert forall|j: int| 0 <= j < cg.len() implies #[trigger] cg[j].repo == rp[j]
        && crate::order::ascending::<RawEvent>(cg[j].events) && cg[j].events.len() > 0
        && cg[j].events.to_multiset() =~= events_of(evs, rp[j]).to_multiset() by {
        assert(rg[j] == GroupView { repo: rp[j], events: events_of(evs, rp[j]) });
        assert(cg[j] == chrono_group(rg[j]));
        crate::order::law_sort_asc::<RawEvent>(events_of(evs, rp[j]));
        assert(rp.contains(rp[j]));
        lemma_events_of_present(evs, rp[j]);
    }
    crate::order::law_sort_desc::<RepoGroup>(cg);
    assert forall|j1: int, j2: int| 0 <= j1 < cg.len() && 0 <= j2 < cg.len() && j1 != j2 implies cg[j1] != cg[j2] by {
        assert(rp[j1] != rp[j2]);
    }
    assert(cg.no_duplicates());
    cg.lemma_multiset_has_no_duplicates();
    assert forall|x: GroupView| g.to_multiset().contains(x) implies g.to_multiset().count(x) == 1 by {
        assert(cg.to_multiset().contains(x));
    }
    g.lemma_multiset_has_no_duplicates_conv();
    assert forall|k: int| 0 <= k < g.len() implies exists|j: int| 0 <= j < cg.len() && cg[j] == #[trigger] g[k] by {
        assert(g.contains(g[k]));
        assert(g.to_multiset().count(g[k]) > 0);
        assert(cg.contains(g[k]));
    }
    assert forall|k: int| 0 <= k < g.len() implies crate::order::ascending::<RawEvent>(#[trigger] g[k].events) by {
        let j = choose|j: int| 0 <= j < cg.len() && cg[j] == g[k];
        assert(cg[j].repo == rp[j]);
    }
    assert forall|k: int| 0 <= k < g.len() implies (#[trigger] g[k]).events.len() > 0
        && g[k].events.to_multiset() =~= events_of(evs, g[k].repo).to_multiset() by {
        let j = choose|j: int| 0 <= j < cg.len() && cg[j] == g[k];
        assert(cg[j].repo == rp[j]);
    }
    assert forall|k1: int, k2: int| 0 <= k1 < k2 < g.len() implies (#[trigger] g[k1]).repo != (#[trigger] g[k2]).repo by {
        let j1 = choose|j: int| 0 <= j < cg.len() && cg[j] == g[k1];
        let j2 = choose|j: int| 0 <= j < cg.len() && cg[j] == g[k2];
        assert(cg[j1].repo == rp[j1]);
        assert(cg[j2].repo == rp[j2]);
        if j1 == j2 {
            assert(g[k1] == g[k2]);
        }
    }
    assert forall|i: int| 0 <= i < evs.len() implies exists|k: int| 0 <= k < g.len() && (#[trigger] g[k]).repo == (#[trigger] evs[i]).repo by {
        lemma_repo_listed(evs, i);
        let j = choose|j: int| 0 <= j < rp.len() && rp[j] == evs[i].repo;
        assert(cg[j].repo == rp[j]);
        assert(cg.contains(cg[j]));
        assert(cg.to_multiset().count(cg[j]) > 0);
        assert(g.contains(cg[j]));
        let k = choose|k: int| 0 <= k < g.len() && g[k] == cg[j];
        assert(g[k].repo == evs[i].repo);
    }
}

} // verus!
