//! Stable ordering of timed records: the earliest (or latest) record is
//! taken first, and records with equal times keep their input order.
use vstd::prelude::*;

verus! {

/// A record with a time (an instant, see `time`).by which it is ordered.
pub trait TimeKey: View + Sized {
    /// The time of a record's value.
    spec fn key(v: Self::V) -> int;

    /// The time of this record.
    fn time_key(&self) -> (t: i128)
        ensures
            t as int == Self::key(self@);
}

/// The values of a sequence of records.
pub open spec fn vals<T: View>(s: Seq<T>) -> Seq<T::V> {
    s.map_values(|x: T| x@)
}

/// The first position of a smallest time in `s`.
pub open spec fn min_index<T: TimeKey>(s: Seq<T::V>) -> int
    decreases s.len(),
{
    if s.len() <= 1 {
        0
    } else {
        let m = min_index::<T>(s.drop_last());
        if T::key(s.last()) < T::key(s[m]) { s.len() - 1 } else { m }
    }
}

/// The first position of a largest time in `s`.
pub open spec fn max_index<T: TimeKey>(s: Seq<T::V>) -> int
    decreases s.len(),
{
    if s.len() <= 1 {
        0
    } else {
        let m = max_index::<T>(s.drop_last());
        if T::key(s.last()) > T::key(s[m]) { s.len() - 1 } else { m }
    }
}

pub proof fn lemma_min_index_bounds<T: TimeKey>(s: Seq<T::V>)
    requires
        s.len() > 0,
    ensures
        0 <= min_index::<T>(s) < s.len(),
    decreases s.len(),
{
    if s.len() > 1 {
        lemma_min_index_bounds::<T>(s.drop_last());
    }
}

pub proof fn lemma_max_index_bounds<T: TimeKey>(s: Seq<T::V>)
    requires
        s.len() > 0,
    ensures
        0 <= max_index::<T>(s) < s.len(),
    decreases s.len(),
{
    if s.len() > 1 {
        lemma_max_index_bounds::<T>(s.drop_last());
    }
}

/// `s` ordered by time, earliest first; equal times keep their order.
pub open spec fn sort_asc<T: TimeKey>(s: Seq<T::V>) -> Seq<T::V>
    decreases s.len(),
{
    if s.len() == 0 {
        s
    } else {
        let i = min_index::<T>(s);
        proof {
            lemma_min_index_bounds::<T>(s);
        }
        seq![s[i]] + sort_asc::<T>(s.remove(i))
    }
}

/// `s` ordered by time, latest first; equal times keep their order.
pub open spec fn sort_desc<T: TimeKey>(s: Seq<T::V>) -> Seq<T::V>
    decreases s.len(),
{
    if s.len() == 0 {
        s
    } else {
        let i = max_index::<T>(s);
        proof {
            lemma_max_index_bounds::<T>(s);
        }
        seq![s[i]] + sort_desc::<T>(s.remove(i))
    }
}

/// `s` is ordered by time, earliest first.
pub open spec fn ascending<T: TimeKey>(s: Seq<T::V>) -> bool {
    forall|i: int, j: int| 0 <= i <= j < s.len() ==> T::key(s[i]) <= T::key(s[j])
}

/// `s` is ordered by time, latest first.
pub open spec fn descending<T: TimeKey>(s: Seq<T::V>) -> bool {
    forall|i: int, j: int| 0 <= i <= j < s.len() ==> T::key(s[i]) >= T::key(s[j])
}

proof fn lemma_min_index_least<T: TimeKey>(s: Seq<T::V>)
    requires
        s.len() > 0,
    ensures
        forall|k: int| 0 <= k < s.len() ==> T::key(s[min_index::<T>(s)]) <= T::key(#[trigger] s[k]),
    decreases s.len(),
{
    lemma_min_index_bounds::<T>(s);
    if s.len() > 1 {
        let d = s.drop_last();
        lemma_min_index_least::<T>(d);
        lemma_min_index_bounds::<T>(d);
        assert forall|k: int| 0 <= k < s.len() implies T::key(s[min_index::<T>(s)]) <= T::key(#[trigger] s[k]) by {
            if k < s.len() - 1 {
                assert(d[k] == s[k]);
            }
            assert(d[min_index::<T>(d)] == s[min_index::<T>(d)]);
        }
    }
}

proof fn lemma_max_index_greatest<T: TimeKey>(s: Seq<T::V>)
    requires
        s.len() > 0,
    ensures
        forall|k: int| 0 <= k < s.len() ==> T::key(s[max_index::<T>(s)]) >= T::key(#[trigger] s[k]),
    decreases s.len(),
{
    lemma_max_index_bounds::<T>(s);
    if s.len() > 1 {
        let d = s.drop_last();
        lemma_max_index_greatest::<T>(d);
        lemma_max_index_bounds::<T>(d);
        assert forall|k: int| 0 <= k < s.len() implies T::key(s[max_index::<T>(s)]) >= T::key(#[trigger] s[k]) by {
            if k < s.len() - 1 {
                assert(d[k] == s[k]);
            }
            assert(d[max_index::<T>(d)] == s[max_index::<T>(d)]);
        }
    }
}

/// Law: ordering earliest first keeps every record (as a multiset) and
/// leaves them in ascending time order.
pub proof fn law_sort_asc<T: TimeKey>(s: Seq<T::V>)
    ensures
        sort_asc::<T>(s).len() == s.len(),
        sort_asc::<T>(s).to_multiset() =~= s.to_multiset(),
        ascending::<T>(sort_asc::<T>(s)),
    decreases s.len(),
{
    broadcast use vstd::seq_lib::group_to_multiset_ensures;
    if s.len() > 0 {
        let i = min_index::<T>(s);
        lemma_min_index_bounds::<T>(s);
        lemma_min_index_least::<T>(s);
        let rest = s.remove(i);
        law_sort_asc::<T>(rest);
        let tail = sort_asc::<T>(rest);
        let r = sort_asc::<T>(s);
        assert(r == seq![s[i]] + tail);
        assert(r =~= tail.insert(0, s[i]));
        vstd::seq_lib::to_multiset_insert(tail, 0, s[i]);
        assert(s.to_multiset().remove(s[i]).insert(s[i]) =~= s.to_multiset());
        assert forall|a: int, b: int| 0 <= a <= b < r.len() implies T::key(r[a]) <= T::key(r[b]) by {
            if a == 0 {
                let y = r[b];
                if b > 0 {
                    assert(y == tail[b - 1]);
                    assert(tail.contains(y));
                    assert(tail.to_multiset().count(y) > 0);
                    assert(rest.to_multiset().count(y) > 0);
                    assert(s.to_multiset().count(y) > 0);
                    assert(s.contains(y));
                    let k = choose|k: int| 0 <= k < s.len() && s[k] == y;
                    assert(T::key(s[i]) <= T::key(s[k]));
                }
            } else {
                assert(r[a] == tail[a - 1]);
                assert(r[b] == tail[b - 1]);
            }
        }
    }
}

/// Law: ordering latest first keeps every record (as a multiset) and
/// leaves them in descending time order.
pub proof fn law_sort_desc<T: TimeKey>(s: Seq<T::V>)
    ensures
        sort_desc::<T>(s).len() == s.len(),
        sort_desc::<T>(s).to_multiset() =~= s.to_multiset(),
        descending::<T>(sort_desc::<T>(s)),
    decreases s.len(),
{
    broadcast use vstd::seq_lib::group_to_multiset_ensures;
    if s.len() > 0 {
        let i = max_index::<T>(s);
        lemma_max_index_bounds::<T>(s);
        lemma_max_index_greatest::<T>(s);
        let rest = s.remove(i);
        law_sort_desc::<T>(rest);
        let tail = sort_desc::<T>(rest);
        let r = sort_desc::<T>(s);
        assert(r == seq![s[i]] + tail);
        assert(r =~= tail.insert(0, s[i]));
        vstd::seq_lib::to_multiset_insert(tail, 0, s[i]);
        assert(s.to_multiset().remove(s[i]).insert(s[i]) =~= s.to_multiset());
        assert forall|a: int, b: int| 0 <= a <= b < r.len() implies T::key(r[a]) >= T::key(r[b]) by {
            if a == 0 {
                let y = r[b];
                if b > 0 {
                    assert(y == tail[b - 1]);
                    assert(tail.contains(y));
                    assert(tail.to_multiset().count(y) > 0);
                    assert(rest.to_multiset().count(y) > 0);
                    assert(s.to_multiset().count(y) > 0);
                    assert(s.contains(y));
                    let k = choose|k: int| 0 <= k < s.len() && s[k] == y;
                    assert(T::key(s[i]) >= T::key(s[k]));
                }
            } else {
                assert(r[a] == tail[a - 1]);
                assert(r[b] == tail[b - 1]);
            }
        }
    }
}

fn index_of_min<T: TimeKey>(v: &Vec<T>) -> (i: usize)
    requires
        v.len() > 0,
    ensures
        i as int == min_index::<T>(vals(v@)),
        i < v.len(),
{
    let n = v.len();
    let mut m: usize = 0;
    let mut best = v[0].time_key();
    let mut k: usize = 1;
    assert(vals(v@).take(1).len() == 1);
    while k < n
        invariant
            n == v@.len(),
            1 <= k <= n,
            m < k,
            m as int == min_index::<T>(vals(v@).take(k as int)),
            best as int == T::key(vals(v@)[m as int]),
        decreases n - k,
    {
        assert(vals(v@).take(k + 1).drop_last() =~= vals(v@).take(k as int));
        let t = v[k].time_key();
        if t < best {
            m = k;
            best = t;
        }
        k = k + 1;
    }
    assert(vals(v@).take(n as int) =~= vals(v@));
    m
}

fn index_of_max<T: TimeKey>(v: &Vec<T>) -> (i: usize)
    requires
        v.len() > 0,
    ensures
        i as int == max_index::<T>(vals(v@)),
        i < v.len(),
{
    let n = v.len();
    let mut m: usize = 0;
    let mut best = v[0].time_key();
    let mut k: usize = 1;
    assert(vals(v@).take(1).len() == 1);
    while k < n
        invariant
            n == v@.len(),
            1 <= k <= n,
            m < k,
            m as int == max_index::<T>(vals(v@).take(k as int)),
            best as int == T::key(vals(v@)[m as int]),
        decreases n - k,
    {
        assert(vals(v@).take(k + 1).drop_last() =~= vals(v@).take(k as int));
        let t = v[k].time_key();
        if t > best {
            m = k;
            best = t;
        }
        k = k + 1;
    }
    assert(vals(v@).take(n as int) =~= vals(v@));
    m
}

/// Order records by time, earliest first, keeping the input order of
/// records with equal times.
pub fn sort_ascending<T: TimeKey>(v: Vec<T>) -> (r: Vec<T>)
    ensures
        vals(r@) == sort_asc::<T>(vals(v@)),
{
    let ghost orig = vals(v@);
    let mut rest = v;
    let mut out: Vec<T> = Vec::new();
    assert(vals(out@) + sort_asc::<T>(vals(rest@)) =~= sort_asc::<T>(orig));
    while rest.len() > 0
        invariant
            vals(out@) + sort_asc::<T>(vals(rest@)) == sort_asc::<T>(orig),
        decreases rest.len(),
    {
        let i = index_of_min(&rest);
        let ghost before = vals(rest@);
        let x = rest.remove(i);
        assert(vals(rest@) =~= before.remove(i as int));
        assert(before[i as int] == x@);
        let ghost old_out = vals(out@);
        out.push(x);
        assert(vals(out@) =~= old_out.push(x@));
        assert(vals(out@) + sort_asc::<T>(vals(rest@)) =~= old_out + (seq![x@] + sort_asc::<T>(vals(rest@))));
    }
    assert(vals(out@) + sort_asc::<T>(vals(rest@)) =~= vals(out@));
    out
}

/// Order records by time, latest first, keeping the input order of
/// records with equal times.
pub fn sort_descending<T: TimeKey>(v: Vec<T>) -> (r: Vec<T>)
    ensures
        vals(r@) == sort_desc::<T>(vals(v@)),
{
    let ghost orig = vals(v@);
    let mut rest = v;
    let mut out: Vec<T> = Vec::new();
    assert(vals(out@) + sort_desc::<T>(vals(rest@)) =~= sort_desc::<T>(orig));
    while rest.len() > 0
        invariant
            vals(out@) + sort_desc::<T>(vals(rest@)) == sort_desc::<T>(orig),
        decreases rest.len(),
    {
        let i = index_of_max(&rest);
        let ghost before = vals(rest@);
        let x = rest.remove(i);
        assert(vals(rest@) =~= before.remove(i as int));
        assert(before[i as int] == x@);
        let ghost old_out = vals(out@);
        out.push(x);
        assert(vals(out@) =~= old_out.push(x@));
        assert(vals(out@) + sort_desc::<T>(vals(rest@)) =~= old_out + (seq![x@] + sort_desc::<T>(vals(rest@))));
    }
    assert(vals(out@) + sort_desc::<T>(vals(rest@)) =~= vals(out@));
    out
}

} // verus!
