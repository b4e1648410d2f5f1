//! Instants, and the whole-second arithmetic the timeline does on them,
//! as `chrono` does it for `DateTime<Utc>`.
//!
//! An instant is held in one `i128`: its Unix second times 2^32 plus the
//! nanoseconds after that second (`1_000_000_000` or more inside a leap
//! second, as `chrono` writes `23:59:60`). Instants then order as `chrono`
//! orders them: by second, then by nanosecond, so a leap second lies
//! strictly before the next second.
use vstd::prelude::*;
use vstd::arithmetic::div_mod::{lemma_fundamental_div_mod, lemma_fundamental_div_mod_converse, lemma_mod_bound};

verus! {

/// One second in the instant encoding (2^32).
pub const SECOND: i128 = 4_294_967_296;

/// Nanoseconds in a second.
pub const NANOS_PER_SEC: i128 = 1_000_000_000;

/// The instant `nanos` nanoseconds after the start of Unix second `secs`.
pub open spec fn instant(secs: int, nanos: int) -> int {
    secs * 4294967296 + nanos
}

/// The Unix second of an instant, as `chrono::DateTime::timestamp` gives it.
pub open spec fn unix_second(t: int) -> int {
    t / 4294967296
}

/// The nanoseconds of an instant after its second, as
/// `chrono::DateTime::timestamp_subsec_nanos` gives them.
pub open spec fn subsec_nanos(t: int) -> int {
    t % 4294967296
}

/// The second of the day an instant lies in (0 to 86399).
pub open spec fn day_second(t: int) -> int {
    unix_second(t) % 86400
}

/// The correction `chrono` makes for a leap second when it subtracts
/// times of day: one more second when `a` is later in its day than `b`
/// and `b` lies in a leap second, one less in the mirror case.
pub open spec fn leap_adjust(a: int, b: int) -> int {
    if day_second(a) > day_second(b) && subsec_nanos(b) >= 1_000_000_000 {
        1
    } else if day_second(a) < day_second(b) && subsec_nanos(a) >= 1_000_000_000 {
        -1
    } else {
        0
    }
}

/// `a - b` in nanoseconds, as `chrono`'s `signed_duration_since` counts it.
pub open spec fn span_nanos(a: int, b: int) -> int {
    (unix_second(a) - unix_second(b) + leap_adjust(a, b)) * 1_000_000_000 + (subsec_nanos(a) - subsec_nanos(b))
}

/// The whole seconds in a span of `d` nanoseconds, rounded toward zero,
/// as `chrono::TimeDelta::num_seconds` counts them.
pub open spec fn whole_secs(d: int) -> int {
    if d >= 0 {
        d / 1_000_000_000
    } else {
        -((-d) / 1_000_000_000)
    }
}

/// `(a - b).num_seconds()`: the whole seconds from `b` to `a`.
pub open spec fn secs_since(a: int, b: int) -> int {
    whole_secs(span_nanos(a, b))
}

/// The instant of Unix second `secs` and `nanos` nanoseconds after it.
pub fn instant_of(secs: i64, nanos: u32) -> (t: i128)
    ensures
        t == instant(secs as int, nanos as int),
{
    assert(-9223372036854775808 * 4294967296 <= secs * 4294967296 <= 9223372036854775807 * 4294967296) by (nonlinear_arith)
        requires
            -9223372036854775808 <= secs <= 9223372036854775807;
    (secs as i128) * SECOND + (nanos as i128)
}

/// `x` split by the positive `d` into quotient (rounded down) and
/// remainder.
fn floor_div_mod(x: i128, d: i128) -> (r: (i128, i128))
    requires
        0 < d,
    ensures
        x == r.0 * d + r.1,
        0 <= r.1 < d,
        r.0 == x as int / d as int,
        r.1 == x as int % d as int,
{
    if x >= 0 {
        let q = x / d;
        let m = x % d;
        proof {
            lemma_fundamental_div_mod(x as int, d as int);
            lemma_mod_bound(x as int, d as int);
            assert(x == q * d + m) by (nonlinear_arith)
                requires x == d * q + m;
        }
        (q, m)
    } else {
        let u: i128 = 0i128 - (x + 1);
        let q0 = u / d;
        let m0 = u % d;
        proof {
            lemma_fundamental_div_mod(u as int, d as int);
            lemma_mod_bound(u as int, d as int);
        }
        assert(q0 >= 0 && q0 * d >= 0 && q0 * d <= u) by (nonlinear_arith)
            requires u == d * q0 + m0, u >= 0, d > 0, 0 <= m0 < d;
        let q = 0i128 - q0 - 1;
        let m = d - 1 - m0;
        assert(x == q * d + m) by (nonlinear_arith)
            requires
                u == d * q0 + m0,
                u == -(x + 1),
                q == -q0 - 1,
                m == d - 1 - m0;
        proof {
            lemma_fundamental_div_mod_converse(x as int, d as int, q as int, m as int);
        }
        (q, m)
    }
}

/// The Unix second of the instant `t`.
pub fn unix_second_of(t: i128) -> (s: i128)
    ensures
        s == unix_second(t as int),
{
    floor_div_mod(t, SECOND).0
}

/// `(a - b).num_seconds()`: the whole seconds from `b` to `a`, rounded
/// toward zero, with `chrono`'s leap-second correction.
pub fn secs_since_of(a: i128, b: i128) -> (r: i128)
    ensures
        r == secs_since(a as int, b as int),
{
    let (qa, ra) = floor_div_mod(a, SECOND);
    let (qb, rb) = floor_div_mod(b, SECOND);
    assert(-39614081257132168796771975168 <= qa <= 39614081257132168796771975168) by (nonlinear_arith)
        requires
            a == qa * 4294967296 + ra,
            0 <= ra < 4294967296,
            -170141183460469231731687303715884105728 <= a <= 170141183460469231731687303715884105727;
    assert(-39614081257132168796771975168 <= qb <= 39614081257132168796771975168) by (nonlinear_arith)
        requires
            b == qb * 4294967296 + rb,
            0 <= rb < 4294967296,
            -170141183460469231731687303715884105728 <= b <= 170141183460469231731687303715884105727;
    let da = floor_div_mod(qa, 86400).1;
    let db = floor_div_mod(qb, 86400).1;
    let adj: i128 = if da > db && rb >= NANOS_PER_SEC {
        1
    } else if da < db && ra >= NANOS_PER_SEC {
        -1
    } else {
        0
    };
    let k: i128 = qa - qb + adj;
    assert(-100000000000000000000000000000000000000 <= k * 1_000_000_000 <= 100000000000000000000000000000000000000) by (nonlinear_arith)
        requires
            -79228162514264337593543950337 <= k <= 79228162514264337593543950337;
    let total: i128 = k * NANOS_PER_SEC + (ra - rb);
    assert(total == span_nanos(a as int, b as int));
    if total >= 0 {
        total / NANOS_PER_SEC
    } else {
        0i128 - ((0i128 - total) / NANOS_PER_SEC)
    }
}

/// Subtraction of instants is antisymmetric: swapping them negates the
/// whole seconds between them.
pub proof fn lemma_secs_since_swap(a: int, b: int)
    ensures
        secs_since(b, a) == -secs_since(a, b),
{
    assert(leap_adjust(b, a) == -leap_adjust(a, b));
    assert(span_nanos(b, a) == -span_nanos(a, b)) by (nonlinear_arith)
        requires
            leap_adjust(b, a) == -leap_adjust(a, b),
            span_nanos(a, b) == (unix_second(a) - unix_second(b) + leap_adjust(a, b)) * 1_000_000_000 + (subsec_nanos(a) - subsec_nanos(b)),
            span_nanos(b, a) == (unix_second(b) - unix_second(a) + leap_adjust(b, a)) * 1_000_000_000 + (subsec_nanos(b) - subsec_nanos(a));
}


/// The whole seconds between two instants held in `i128`s are well
/// within 2^100 either way.
pub proof fn lemma_secs_since_bounds(a: i128, b: i128)
    ensures
        -1267650600228229401496703205376 < secs_since(a as int, b as int) < 1267650600228229401496703205376,
{
    let ua = unix_second(a as int);
    let ub = unix_second(b as int);
    lemma_fundamental_div_mod(a as int, 4294967296);
    lemma_fundamental_div_mod(b as int, 4294967296);
    lemma_mod_bound(a as int, 4294967296);
    lemma_mod_bound(b as int, 4294967296);
    assert(-39614081257132168796771975169 <= ua <= 39614081257132168796771975169) by (nonlinear_arith)
        requires
            a == 4294967296 * ua + (a as int % 4294967296),
            0 <= (a as int % 4294967296) < 4294967296,
            -170141183460469231731687303715884105728 <= a <= 170141183460469231731687303715884105727;
    assert(-39614081257132168796771975169 <= ub <= 39614081257132168796771975169) by (nonlinear_arith)
        requires
            b == 4294967296 * ub + (b as int % 4294967296),
            0 <= (b as int % 4294967296) < 4294967296,
            -170141183460469231731687303715884105728 <= b <= 170141183460469231731687303715884105727;
    let d = span_nanos(a as int, b as int);
    let k = ua - ub + leap_adjust(a as int, b as int);
    let f = subsec_nanos(a as int) - subsec_nanos(b as int);
    assert(-1000000000000000000000000000000000000000 < d < 1000000000000000000000000000000000000000) by (nonlinear_arith)
        requires
            d == k * 1_000_000_000 + f,
            -79228162514264337593543950340 <= k <= 79228162514264337593543950340,
            -4294967296 < f < 4294967296;
    let ad = if d >= 0 { d } else { -d };
    lemma_fundamental_div_mod(ad, 1_000_000_000);
    lemma_mod_bound(ad, 1_000_000_000);
    assert(ad / 1_000_000_000 < 1267650600228229401496703205376) by (nonlinear_arith)
        requires
            ad == 1_000_000_000 * (ad / 1_000_000_000) + (ad % 1_000_000_000),
            0 <= ad % 1_000_000_000,
            ad < 1000000000000000000000000000000000000000;
    assert(ad / 1_000_000_000 >= 0) by (nonlinear_arith)
        requires
            ad == 1_000_000_000 * (ad / 1_000_000_000) + (ad % 1_000_000_000),
            ad % 1_000_000_000 < 1_000_000_000,
            ad >= 0;
}

} // verus!
