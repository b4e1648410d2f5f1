//! Humanized time labels: "just now", "5 mins ago", "1-3 hrs ago", "in 2 days".
//!
//! Times are instants (see `time`); labels count the whole seconds
//! between them as `chrono` does, rounded toward zero.
use vstd::prelude::*;
use crate::text::{decimal, u128_to_decimal, cat, cat3};
use crate::time::{secs_since, secs_since_of, lemma_secs_since_swap};

verus! {

/// A human-friendly time-range label, ready to render.
#[derive(Debug, Clone, PartialEq, Eq)]
pub enum HumanRange {
    /// A single point in time, formatted as "5 mins ago" or "in 5 mins".
    Point(String),
    /// A range of two points, formatted as "1-3 hrs ago" or "in 1-3 hrs".
    Range(String),
}

/// The mathematical value of a [`HumanRange`].
pub enum HumanRangeView {
    /// A single point label.
    Point(Seq<char>),
    /// A range label.
    Range(Seq<char>),
}

impl View for HumanRange {
    type V = HumanRangeView;

    open spec fn view(&self) -> HumanRangeView {
        match self {
            HumanRange::Point(s) => HumanRangeView::Point(s@),
            HumanRange::Range(s) => HumanRangeView::Range(s@),
        }
    }
}

impl HumanRangeView {
    /// The label text.
    pub open spec fn text(self) -> Seq<char> {
        match self {
            HumanRangeView::Point(s) => s,
            HumanRangeView::Range(s) => s,
        }
    }
}

impl HumanRange {
    /// Get the string representation.
    pub fn as_str(&self) -> (r: &str)
        ensures
            r@ == self@.text(),
    {
        match self {
            HumanRange::Point(s) => s.as_str(),
            HumanRange::Range(s) => s.as_str(),
        }
    }
}

/// A time unit used in humanized labels.
#[derive(Debug, Clone, Copy, PartialEq, Eq, Structural)]
pub enum Unit {
    Sec,
    Min,
    Hr,
    Day,
    Wk,
    Mo,
    Yr,
}

/// The label word of a unit.
pub open spec fn unit_name(u: Unit) -> Seq<char> {
    match u {
        Unit::Sec => seq!['s', 'e', 'c'],
        Unit::Min => seq!['m', 'i', 'n'],
        Unit::Hr => seq!['h', 'r'],
        Unit::Day => seq!['d', 'a', 'y'],
        Unit::Wk => seq!['w', 'k'],
        Unit::Mo => seq!['m', 'o'],
        Unit::Yr => seq!['y', 'r'],
    }
}

impl Unit {
    /// The label word, e.g. `"hr"`.
    pub fn as_str(self) -> (r: &'static str)
        ensures
            r@ == unit_name(self),
    {
        proof {
            reveal_strlit("sec");
            reveal_strlit("min");
            reveal_strlit("hr");
            reveal_strlit("day");
            reveal_strlit("wk");
            reveal_strlit("mo");
            reveal_strlit("yr");
        }
        match self {
            Unit::Sec => "sec",
            Unit::Min => "min",
            Unit::Hr => "hr",
            Unit::Day => "day",
            Unit::Wk => "wk",
            Unit::Mo => "mo",
            Unit::Yr => "yr",
        }
    }
}

/// Whether a label refers to the past ("5 mins ago") or the future ("in 5 mins").
#[derive(Debug, Clone, Copy, PartialEq, Eq, Structural)]
pub enum Direction {
    Past,
    Future,
}

/// The coarse magnitude of a time delta, ready to format.
#[derive(Debug, Clone, Copy, PartialEq, Eq, Structural)]
pub struct Magnitude {
    pub n: u128,
    pub unit: Unit,
    pub direction: Direction,
}

/// The magnitude of a point `secs` seconds in the future.
pub open spec fn future_magnitude(secs: int) -> Magnitude {
    let mins = secs / 60;
    let hrs = mins / 60;
    if secs < 60 {
        Magnitude { n: secs as u128, unit: Unit::Sec, direction: Direction::Future }
    } else if mins < 60 {
        Magnitude { n: mins as u128, unit: Unit::Min, direction: Direction::Future }
    } else if hrs < 24 {
        Magnitude { n: hrs as u128, unit: Unit::Hr, direction: Direction::Future }
    } else {
        Magnitude { n: (hrs / 24) as u128, unit: Unit::Day, direction: Direction::Future }
    }
}

/// The magnitude of `t` seen from `now`; `None` for "just now" (the
/// past 5 seconds, `now` included).
pub open spec fn magnitude_of(t: int, now: int) -> Option<Magnitude> {
    let secs = secs_since(now, t);
    let mins = secs / 60;
    let hrs = mins / 60;
    let days = hrs / 24;
    let past = Direction::Past;
    if secs < 0 {
        Some(future_magnitude(-secs))
    } else if secs < 5 {
        None
    } else if secs < 60 {
        Some(Magnitude { n: secs as u128, unit: Unit::Sec, direction: past })
    } else if mins < 60 {
        Some(Magnitude { n: mins as u128, unit: Unit::Min, direction: past })
    } else if hrs < 24 {
        Some(Magnitude { n: hrs as u128, unit: Unit::Hr, direction: past })
    } else if days < 7 {
        Some(Magnitude { n: days as u128, unit: Unit::Day, direction: past })
    } else if days / 7 < 5 {
        Some(Magnitude { n: (days / 7) as u128, unit: Unit::Wk, direction: past })
    } else if days / 30 < 12 {
        Some(Magnitude { n: (days / 30) as u128, unit: Unit::Mo, direction: past })
    } else {
        Some(Magnitude { n: (days / 365) as u128, unit: Unit::Yr, direction: past })
    }
}

fn magnitude_future(secs: u128) -> (m: Magnitude)
    ensures
        m == future_magnitude(secs as int),
{
    if secs < 60 {
        return Magnitude { n: secs, unit: Unit::Sec, direction: Direction::Future };
    }
    let mins = secs / 60;
    if mins < 60 {
        return Magnitude { n: mins, unit: Unit::Min, direction: Direction::Future };
    }
    let hrs = mins / 60;
    if hrs < 24 {
        return Magnitude { n: hrs, unit: Unit::Hr, direction: Direction::Future };
    }
    let days = hrs / 24;
    Magnitude { n: days, unit: Unit::Day, direction: Direction::Future }
}

/// Compute the coarse magnitude of `t` relative to `now`.
fn magnitude(t: i128, now: i128) -> (r: Option<Magnitude>)
    ensures
        r == magnitude_of(t as int, now as int),
{
    let delta: i128 = secs_since_of(now, t);
    if delta < 0 {
        let abs: u128 = (0 - delta) as u128;
        return Some(magnitude_future(abs));
    }
    let secs: u128 = delta as u128;
    if secs < 5 {
        return None;
    }
    if secs < 60 {
        return Some(Magnitude { n: secs, unit: Unit::Sec, direction: Direction::Past });
    }
    let mins = secs / 60;
    if mins < 60 {
        return Some(Magnitude { n: mins, unit: Unit::Min, direction: Direction::Past });
    }
    let hrs = mins / 60;
    if hrs < 24 {
        return Some(Magnitude { n: hrs, unit: Unit::Hr, direction: Direction::Past });
    }
    let days = hrs / 24;
    if days < 7 {
        return Some(Magnitude { n: days, unit: Unit::Day, direction: Direction::Past });
    }
    let weeks = days / 7;
    if weeks < 5 {
        return Some(Magnitude { n: weeks, unit: Unit::Wk, direction: Direction::Past });
    }
    let months = days / 30;
    if months < 12 {
        return Some(Magnitude { n: months, unit: Unit::Mo, direction: Direction::Past });
    }
    let years = days / 365;
    Some(Magnitude { n: years, unit: Unit::Yr, direction: Direction::Past })
}

/// The plural suffix for a count: empty for exactly one, `s` otherwise.
pub open spec fn plural(n: nat) -> Seq<char> {
    if n == 1 { Seq::empty() } else { seq!['s'] }
}

fn plural_suffix(n: u128) -> (r: &'static str)
    ensures
        r@ == plural(n as nat),
{
    proof {
        reveal_strlit("");
        reveal_strlit("s");
    }
    if n == 1 { "" } else { "s" }
}

/// " ago"
pub open spec fn ago_suffix() -> Seq<char> {
    seq![' ', 'a', 'g', 'o']
}

/// "in "
pub open spec fn in_prefix() -> Seq<char> {
    seq!['i', 'n', ' ']
}

/// A label in the given direction: "`body` ago" or "in `body`".
pub open spec fn directed(body: Seq<char>, d: Direction) -> Seq<char> {
    match d {
        Direction::Past => body + ago_suffix(),
        Direction::Future => in_prefix() + body,
    }
}

/// The point label of a magnitude, e.g. "3 hrs ago" or "in 3 hrs".
pub open spec fn point_label(m: Magnitude) -> Seq<char> {
    directed(decimal(m.n as nat) + seq![' '] + unit_name(m.unit) + plural(m.n as nat), m.direction)
}

fn directed_label(body: String, d: Direction) -> (r: String)
    ensures
        r@ == directed(body@, d),
{
    proof {
        reveal_strlit(" ago");
        reveal_strlit("in ");
    }
    match d {
        Direction::Past => body.concat(" ago"),
        Direction::Future => cat("in ", body.as_str()),
    }
}

/// Format a magnitude as a point label.
fn format_point_label(m: Magnitude) -> (r: String)
    ensures
        r@ == point_label(m),
{
    proof {
        reveal_strlit(" ");
    }
    let n = u128_to_decimal(m.n);
    let body = cat3(n.as_str(), " ", m.unit.as_str()).concat(plural_suffix(m.n));
    directed_label(body, m.direction)
}

/// "just now"
pub open spec fn just_now() -> Seq<char> {
    seq!['j', 'u', 's', 't', ' ', 'n', 'o', 'w']
}

/// The label of a single instant `t` seen from `now`.
pub open spec fn ago_text(t: int, now: int) -> Seq<char> {
    match magnitude_of(t, now) {
        None => just_now(),
        Some(m) => point_label(m),
    }
}

fn ago_label(t: i128, now: i128) -> (r: String)
    ensures
        r@ == ago_text(t as int, now as int),
{
    match magnitude(t, now) {
        None => {
            proof {
                reveal_strlit("just now");
            }
            String::from_str("just now")
        },
        Some(m) => format_point_label(m),
    }
}

/// The range label "`lo`-`hi` `unit`s ago" or "in `lo`-`hi` `unit`s".
pub open spec fn range_label(lo: nat, hi: nat, u: Unit, d: Direction) -> Seq<char> {
    directed(decimal(lo) + seq!['-'] + decimal(hi) + seq![' '] + unit_name(u) + plural(hi), d)
}

/// The humanized label of the span from `earliest` to `latest`, seen from
/// `now`.
///
/// Endpoints less than a minute apart (whole seconds counted toward zero)
/// give the point label of `latest`.
/// Otherwise, when both endpoints have the same unit and direction, the
/// label is a range from the smaller to the larger count (a point when the
/// counts are equal); in every other case it is the point label of
/// `latest`.
pub open spec fn humanized(earliest: int, latest: int, now: int) -> HumanRangeView {
    let d = secs_since(latest, earliest);
    let span = if d >= 0 { d } else { -d };
    if span < 60 {
        HumanRangeView::Point(ago_text(latest, now))
    } else {
        match (magnitude_of(earliest, now), magnitude_of(latest, now)) {
            (Some(a), Some(b)) => {
                if a.unit == b.unit && a.direction == b.direction {
                    let lo: nat = if a.n <= b.n { a.n as nat } else { b.n as nat };
                    let hi: nat = if a.n <= b.n { b.n as nat } else { a.n as nat };
                    if lo == hi {
                        HumanRangeView::Point(point_label(Magnitude { n: lo as u128, unit: a.unit, direction: a.direction }))
                    } else {
                        HumanRangeView::Range(range_label(lo, hi, a.unit, a.direction))
                    }
                } else {
                    HumanRangeView::Point(ago_text(latest, now))
                }
            },
            _ => HumanRangeView::Point(ago_text(latest, now)),
        }
    }
}

/// Format the span between `earliest` and `latest` (relative to `now`) as a
/// humanized label.
pub fn humanize_range(earliest: i128, latest: i128, now: i128) -> (r: HumanRange)
    ensures
        r@ == humanized(earliest as int, latest as int, now as int),
{
    let span: i128 = secs_since_of(latest, earliest);
    let span_abs: i128 = if span < 0 { 0 - span } else { span };
    if span_abs < 60 {
        return HumanRange::Point(ago_label(latest, now));
    }
    let m_e = magnitude(earliest, now);
    let m_l = magnitude(latest, now);
    match (m_e, m_l) {
        (Some(a), Some(b)) => {
            if a.unit == b.unit && a.direction == b.direction {
                let lo = if a.n <= b.n { a.n } else { b.n };
                let hi = if a.n <= b.n { b.n } else { a.n };
                if lo == hi {
                    HumanRange::Point(format_point_label(Magnitude { n: lo, unit: a.unit, direction: a.direction }))
                } else {
                    proof {
                        reveal_strlit("-");
                        reveal_strlit(" ");
                    }
                    let los = u128_to_decimal(lo);
                    let his = u128_to_decimal(hi);
                    let body = cat3(los.as_str(), "-", his.as_str());
                    let body = cat3(body.as_str(), " ", a.unit.as_str()).concat(plural_suffix(hi));
                    assert(body@ =~= decimal(lo as nat) + seq!['-'] + decimal(hi as nat) + seq![' '] + unit_name(a.unit) + plural(hi as nat));
                    HumanRange::Range(directed_label(body, a.direction))
                }
            } else {
                HumanRange::Point(ago_label(latest, now))
            }
        },
        _ => HumanRange::Point(ago_label(latest, now)),
    }
}


/// A single instant never forms a range: `humanize_range(t, t, now)` is a
/// point label, "just now" or the point label of the instant's magnitude.
pub proof fn law_same_instant_is_point(t: int, now: int)
    ensures
        humanized(t, t, now) is Point,
        humanized(t, t, now).text() == just_now()
            || exists|m: Magnitude| humanized(t, t, now).text() == #[trigger] point_label(m),
{
    let r = humanized(t, t, now);
    match magnitude_of(t, now) {
        None => {},
        Some(m) => {
            assert(r.text() == point_label(m));
        },
    }
}

/// Ranges are written low count first whichever endpoint is passed first:
/// when `humanize_range(e, l, now)` is a range, swapping the endpoints
/// gives the same range.
pub proof fn law_range_ignores_endpoint_order(e: int, l: int, now: int)
    requires
        humanized(e, l, now) is Range,
    ensures
        humanized(l, e, now) == humanized(e, l, now),
{
    lemma_secs_since_swap(l, e);
}

/// A range label always names two different counts, the smaller first.
pub proof fn law_range_counts_differ(e: int, l: int, now: int)
    requires
        humanized(e, l, now) is Range,
    ensures
        exists|lo: nat, hi: nat, u: Unit, d: Direction|
            lo < hi && humanized(e, l, now).text() == #[trigger] range_label(lo, hi, u, d),
{
    let a = magnitude_of(e, now).unwrap();
    let b = magnitude_of(l, now).unwrap();
    let lo: nat = if a.n <= b.n { a.n as nat } else { b.n as nat };
    let hi: nat = if a.n <= b.n { b.n as nat } else { a.n as nat };
    assert(humanized(e, l, now).text() == range_label(lo, hi, a.unit, a.direction));
}


/// The length of a unit in seconds; a month counts 30 days and a year 365.
pub open spec fn unit_secs(u: Unit) -> int {
    match u {
        Unit::Sec => 1,
        Unit::Min => 60,
        Unit::Hr => 3600,
        Unit::Day => 86400,
        Unit::Wk => 604800,
        Unit::Mo => 2592000,
        Unit::Yr => 31536000,
    }
}

proof fn lemma_div_bounds(x: int, d: int)
    requires
        x >= 0,
        d > 0,
    ensures
        d * (x / d) <= x < d * (x / d) + d,
        x / d >= 0,
{
    vstd::arithmetic::div_mod::lemma_fundamental_div_mod(x, d);
    vstd::arithmetic::div_mod::lemma_mod_bound(x, d);
    assert(x / d >= 0) by (nonlinear_arith)
        requires
            x == d * (x / d) + (x % d),
            x % d < d,
            x >= 0,
            d > 0;
}

/// The count of a magnitude `secs` seconds away measures it in its unit:
/// `n` whole units, not `n + 1`, fit into the `secs` seconds.
proof fn lemma_measure(secs: int, m: Magnitude)
    requires
        secs >= 0,
        secs < 1267650600228229401496703205376,
        m == future_magnitude(secs),
    ensures
        m.n * unit_secs(m.unit) <= secs < (m.n + 1) * unit_secs(m.unit),
{
    let mins = secs / 60;
    let hrs = mins / 60;
    lemma_div_bounds(secs, 60);
    lemma_div_bounds(mins, 60);
    lemma_div_bounds(hrs, 24);
}

/// Law: a label's count measures the time between the instant and `now`
/// in the label's unit. "Just now" is exactly the past five seconds; a
/// past label says `n` of a unit `u` seconds long when `n * u` seconds but
/// not `(n + 1) * u` have passed, and a future label likewise of the time
/// still to come.
pub proof fn law_magnitude_measures(t: i128, now: i128)
    ensures
        match magnitude_of(t as int, now as int) {
            None => 0 <= secs_since(now as int, t as int) < 5,
            Some(m) => if m.direction == Direction::Past {
                &&& secs_since(now as int, t as int) >= 5
                &&& m.n * unit_secs(m.unit) <= secs_since(now as int, t as int) < (m.n + 1) * unit_secs(m.unit)
            } else {
                &&& secs_since(now as int, t as int) < 0
                &&& m.n * unit_secs(m.unit) <= -secs_since(now as int, t as int) < (m.n + 1) * unit_secs(m.unit)
            },
        },
{
    crate::time::lemma_secs_since_bounds(now, t);
    let secs = secs_since(now as int, t as int);
    if secs < 0 {
        lemma_measure(-secs, future_magnitude(-secs));
    } else if secs >= 5 {
        let mins = secs / 60;
        let hrs = mins / 60;
        let days = hrs / 24;
        lemma_div_bounds(secs, 60);
        lemma_div_bounds(mins, 60);
        lemma_div_bounds(hrs, 24);
        lemma_div_bounds(days, 7);
        lemma_div_bounds(days, 30);
        lemma_div_bounds(days, 365);
    }
}

} // verus!
