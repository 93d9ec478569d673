//! The distance module: great-circle distance between two coordinates.
//!
//! Distances are computed with the haversine formula on a sphere of
//! radius 6371 km, in fixed-point integer arithmetic: angles are carried
//! scaled by `SCALE` (so one radian is `SCALE` units), the sine and
//! arcsine are evaluated by their power series, and the square root is an
//! integer square root. The result is the distance in whole meters. The
//! specification functions mirror the computation step by step, so the
//! executable code is proved to return exactly the specified value.

use vstd::prelude::*;

use vstd::arithmetic::div_mod::lemma_div_is_ordered;
use vstd::arithmetic::div_mod::lemma_fundamental_div_mod;
use vstd::arithmetic::div_mod::lemma_fundamental_div_mod_converse;
use vstd::arithmetic::mul::lemma_mul_inequality;

verus! {

/// Fixed-point scale: one radian.
pub const SCALE: u128 = 1000000000000;

/// Pi at the fixed-point scale.
pub const PI_S: u128 = 3141592653590;

/// Pi over two at the fixed-point scale.
pub const HALF_PI_S: u128 = 1570796326795;

/// Twice the Earth radius, in meters.
pub const EARTH_DIAMETER_M: u128 = 12742000;

/// Microdegrees in a half circle.
pub const HALF_CIRCLE_UDEG: u128 = 180000000;

/// An angle in microdegrees converted to fixed-point radians.
pub open spec fn spec_rad(udeg: int) -> int {
    (udeg * (PI_S as int)) / (HALF_CIRCLE_UDEG as int)
}

/// One factor of a sine power series step: the previous term times the
/// squared angle, rescaled, divided by the term's constant.
pub open spec fn spec_sin_step(t: int, x2: int, d: int) -> int {
    ((t * x2) / (SCALE as int)) / d
}

/// The sine of an angle in `[0, pi/2]`, by the first nine terms of its
/// power series.
pub open spec fn spec_sin_half(y: int) -> int {
    let x2 = (y * y) / (SCALE as int);
    let t1 = spec_sin_step(y, x2, 6);
    let t2 = spec_sin_step(t1, x2, 20);
    let t3 = spec_sin_step(t2, x2, 42);
    let t4 = spec_sin_step(t3, x2, 72);
    let t5 = spec_sin_step(t4, x2, 110);
    let t6 = spec_sin_step(t5, x2, 156);
    let t7 = spec_sin_step(t6, x2, 210);
    let t8 = spec_sin_step(t7, x2, 272);
    (y + t2 + t4 + t6 + t8) - (t1 + t3 + t5 + t7)
}

/// The sine of an angle in `[0, pi]`, folded onto `[0, pi/2]`.
pub open spec fn spec_sin(x: int) -> int {
    if x <= HALF_PI_S as int {
        spec_sin_half(x)
    } else {
        spec_sin_half((PI_S as int) - x)
    }
}

/// One arcsine power series step: the previous term times the squared
/// argument, rescaled, times the step's ratio.
pub open spec fn spec_asin_step(t: int, x2: int, q1: int, q2: int) -> int {
    (((t * x2) / (SCALE as int)) * q1) / q2
}

/// The arcsine of an argument in `[0, sqrt(1/2)]`, by the first
/// twenty-five terms of its power series.
pub open spec fn spec_asin(x: int) -> int {
    let x2 = (x * x) / (SCALE as int);
    let t1 = spec_asin_step(x, x2, 1, 6);
    let t2 = spec_asin_step(t1, x2, 9, 20);
    let t3 = spec_asin_step(t2, x2, 25, 42);
    let t4 = spec_asin_step(t3, x2, 49, 72);
    let t5 = spec_asin_step(t4, x2, 81, 110);
    let t6 = spec_asin_step(t5, x2, 121, 156);
    let t7 = spec_asin_step(t6, x2, 169, 210);
    let t8 = spec_asin_step(t7, x2, 225, 272);
    let t9 = spec_asin_step(t8, x2, 289, 342);
    let t10 = spec_asin_step(t9, x2, 361, 420);
    let t11 = spec_asin_step(t10, x2, 441, 506);
    let t12 = spec_asin_step(t11, x2, 529, 600);
    let t13 = spec_asin_step(t12, x2, 625, 702);
    let t14 = spec_asin_step(t13, x2, 729, 812);
    let t15 = spec_asin_step(t14, x2, 841, 930);
    let t16 = spec_asin_step(t15, x2, 961, 1056);
    let t17 = spec_asin_step(t16, x2, 1089, 1190);
    let t18 = spec_asin_step(t17, x2, 1225, 1332);
    let t19 = spec_asin_step(t18, x2, 1369, 1482);
    let t20 = spec_asin_step(t19, x2, 1521, 1640);
    let t21 = spec_asin_step(t20, x2, 1681, 1806);
    let t22 = spec_asin_step(t21, x2, 1849, 1980);
    let t23 = spec_asin_step(t22, x2, 2025, 2162);
    let t24 = spec_asin_step(t23, x2, 2209, 2352);
    x + t1 + t2 + t3 + t4 + t5 + t6 + t7 + t8 + t9 + t10 + t11 + t12 + t13 + t14 + t15 + t16
        + t17 + t18 + t19 + t20 + t21 + t22 + t23 + t24
}

/// The integer square root, by halving the argument's bits.
pub open spec fn spec_isqrt(n: int) -> int
    decreases n,
{
    if n <= 0 {
        0
    } else {
        let r = 2 * spec_isqrt(n / 4);
        if (r + 1) * (r + 1) <= n {
            r + 1
        } else {
            r
        }
    }
}

/// The haversine term `a`: the squared sine of half the great-circle
/// angle, clamped onto `[0, 1]`.
pub open spec fn spec_hav_a(lat1: int, lon1: int, lat2: int, lon2: int) -> int {
    let dlat = if lat1 >= lat2 {
        lat1 - lat2
    } else {
        lat2 - lat1
    };
    let dlon = if lon1 >= lon2 {
        lon1 - lon2
    } else {
        lon2 - lon1
    };
    let sh1 = spec_sin_half(spec_rad(dlat) / 2);
    let sh2 = spec_sin(spec_rad(dlon) / 2);
    let c1 = spec_sin_half((HALF_PI_S as int) - spec_rad(if lat1 >= 0 {
        lat1
    } else {
        -lat1
    }));
    let c2 = spec_sin_half((HALF_PI_S as int) - spec_rad(if lat2 >= 0 {
        lat2
    } else {
        -lat2
    }));
    let a = (sh1 * sh1) / (SCALE as int) + ((((c1 * c2) / (SCALE as int)) * ((sh2 * sh2) / (
    SCALE as int))) / (SCALE as int));
    if a < 0 {
        0
    } else if a > SCALE as int {
        SCALE as int
    } else {
        a
    }
}

/// Half the great-circle angle: the arcsine of the square root of the
/// haversine term, on whichever side of `pi/4` converges fast.
pub open spec fn spec_half_angle(a: int) -> int {
    if a <= (SCALE as int) / 2 {
        spec_asin(spec_isqrt(a * (SCALE as int)))
    } else {
        (HALF_PI_S as int) - spec_asin(spec_isqrt(((SCALE as int) - a) * (SCALE as int)))
    }
}

/// The great-circle distance in meters between two points given in
/// microdegrees: haversine on a sphere of radius 6371 km. Opaque: its
/// callers rank by it and never need the formula itself.
#[verifier::opaque]
pub open spec fn spec_distance_m(lat1: i64, lon1: i64, lat2: i64, lon2: i64) -> int {
    ((EARTH_DIAMETER_M as int) * spec_half_angle(
        spec_hav_a(lat1 as int, lon1 as int, lat2 as int, lon2 as int),
    )) / (SCALE as int)
}

/// A coordinate pair holds a latitude within ninety degrees and a
/// longitude within one hundred eighty degrees of zero.
pub open spec fn valid_coordinate(lat: i64, lon: i64) -> bool {
    -90000000 <= lat <= 90000000 && -180000000 <= lon <= 180000000
}

/// The distance from a point to itself is zero.
pub proof fn lemma_distance_self_is_zero(lat: i64, lon: i64)
    ensures
        spec_distance_m(lat, lon, lat, lon) == 0,
{
    reveal(spec_distance_m);
    assert(spec_rad(0) == 0);
    assert(spec_sin_step(0, 0, 6) == 0);
    assert(spec_sin_half(0) == 0);
    assert(spec_sin(0) == 0);
    let c1 = spec_sin_half((HALF_PI_S as int) - spec_rad(if lat >= 0 {
        lat as int
    } else {
        -(lat as int)
    }));
    assert((c1 * c1) / (SCALE as int) * 0 == 0);
    assert(spec_hav_a(lat as int, lon as int, lat as int, lon as int) == 0);
    assert(spec_isqrt(0) == 0);
    assert(spec_asin(0) == 0);
    assert(spec_half_angle(0) == 0);
}

/// The distance does not depend on the order of its two points.
pub proof fn lemma_distance_symmetric(lat1: i64, lon1: i64, lat2: i64, lon2: i64)
    ensures
        spec_distance_m(lat1, lon1, lat2, lon2) == spec_distance_m(lat2, lon2, lat1, lon1),
{
    reveal(spec_distance_m);
    let c1 = spec_sin_half((HALF_PI_S as int) - spec_rad(if lat1 >= 0 {
        lat1 as int
    } else {
        -(lat1 as int)
    }));
    let c2 = spec_sin_half((HALF_PI_S as int) - spec_rad(if lat2 >= 0 {
        lat2 as int
    } else {
        -(lat2 as int)
    }));
    assert(c1 * c2 == c2 * c1) by (nonlinear_arith);
}

proof fn lemma_mul_div_le(t: int, x2: int, cap: int)
    requires
        t >= 0,
        0 <= x2 <= cap,
    ensures
        (t * x2) / (SCALE as int) <= (t * cap) / (SCALE as int),
{
    lemma_mul_inequality(x2, cap, t);
    assert(t * x2 == x2 * t) by (nonlinear_arith);
    assert(t * cap == cap * t) by (nonlinear_arith);
    lemma_div_is_ordered(t * x2, t * cap, SCALE as int);
}

proof fn lemma_times_const_div(t: int, c: int)
    requires
        t >= 0,
        1 <= c <= 100,
    ensures
        (t * (c * (SCALE as int))) / (SCALE as int) == c * t,
{
    assert(t * (c * (SCALE as int)) == (c * t) * (SCALE as int) + 0) by (nonlinear_arith);
    lemma_fundamental_div_mod_converse(
        t * (c * (SCALE as int)),
        SCALE as int,
        c * t,
        0,
    );
}

proof fn lemma_halving(t: int)
    requires
        t >= 0,
    ensures
        (t * ((SCALE as int) / 2)) / (SCALE as int) == t / 2,
{
    let h = t / 2;
    let b = t % 2;
    lemma_fundamental_div_mod(t, 2);
    assert(t * 500000000000 == h * 1000000000000 + b * 500000000000) by (nonlinear_arith)
        requires
            t == 2 * h + b,
    ;
    lemma_fundamental_div_mod_converse(
        t * 500000000000,
        1000000000000,
        h,
        b * 500000000000,
    );
}

/// One sine series step: from `t` and the rescaled squared angle `x2`,
/// the next, smaller term.
fn sin_step(t: u128, x2: u128, d: u128) -> (r: u128)
    requires
        t <= 2000000000000,
        x2 <= 3 * SCALE,
        6 <= d <= 300,
    ensures
        r == spec_sin_step(t as int, x2 as int, d as int),
        r <= t / 2,
{
    proof {
        assert(t * x2 <= 2000000000000u128 * (3 * SCALE)) by (nonlinear_arith)
            requires
                t <= 2000000000000u128 && x2 <= 3 * SCALE,
        ;
        lemma_mul_div_le(t as int, x2 as int, 3 * (SCALE as int));
        lemma_times_const_div(t as int, 3);
        // (t * x2) / SCALE <= 3 * t, and dividing by at least six halves it.
        let u = (t as int * x2 as int) / (SCALE as int);
        lemma_div_is_ordered(u, 3 * (t as int), d as int);
        lemma_fundamental_div_mod(t as int, 2);
        assert(3 * (t as int) == 6 * (t as int / 2) + 3 * (t as int % 2)) by (nonlinear_arith)
            requires
                t as int == 2 * (t as int / 2) + (t as int % 2),
        ;
        lemma_fundamental_div_mod_converse(
            3 * (t as int),
            6,
            t as int / 2,
            3 * (t as int % 2),
        );
        vstd::arithmetic::div_mod::lemma_div_is_ordered_by_denominator(
            3 * (t as int),
            6,
            d as int,
        );
    }
    let u = (t * x2) / SCALE;
    u / d
}

/// The sine of a fixed-point angle in `[0, pi/2]`.
fn sin_half_s(y: u128) -> (r: u128)
    requires
        y <= HALF_PI_S,
    ensures
        r == spec_sin_half(y as int),
        r <= 5 * y,
{
    proof {
        assert(y * y <= 1570796326795u128 * 1570796326795u128) by (nonlinear_arith)
            requires
                y <= 1570796326795u128,
        ;
        lemma_div_is_ordered(
            y as int * y as int,
            (1570796326795 as int) * (1570796326795 as int),
            SCALE as int,
        );
    }
    let x2 = (y * y) / SCALE;
    assert(x2 <= 3 * SCALE);
    let t1 = sin_step(y, x2, 6);
    let t2 = sin_step(t1, x2, 20);
    let t3 = sin_step(t2, x2, 42);
    let t4 = sin_step(t3, x2, 72);
    let t5 = sin_step(t4, x2, 110);
    let t6 = sin_step(t5, x2, 156);
    let t7 = sin_step(t6, x2, 210);
    let t8 = sin_step(t7, x2, 272);
    let possum = y + t2 + t4 + t6 + t8;
    let negsum = t1 + t3 + t5 + t7;
    possum - negsum
}

/// One arcsine series step: from `t` and the rescaled squared argument
/// `x2`, the next term; at most half the previous one.
fn asin_step(t: u128, x2: u128, q1: u128, q2: u128) -> (r: u128)
    requires
        t <= 2000000000000,
        x2 <= SCALE / 2,
        1 <= q1 <= q2 <= 2400,
    ensures
        r == spec_asin_step(t as int, x2 as int, q1 as int, q2 as int),
        2 * r <= t,
{
    proof {
        assert(t * x2 <= 2000000000000u128 * (SCALE / 2)) by (nonlinear_arith)
            requires
                t <= 2000000000000u128 && x2 <= SCALE / 2,
        ;
        lemma_mul_div_le(t as int, x2 as int, SCALE as int / 2);
        lemma_halving(t as int);
        // u <= t / 2; multiplying by q1 and dividing by the larger q2
        // cannot grow it.
        let u = (t as int * x2 as int) / SCALE as int;
        assert(u >= 0) by {
            vstd::arithmetic::div_mod::lemma_div_pos_is_pos(t as int * x2 as int, SCALE as int);
            assert(t as int * x2 as int >= 0) by (nonlinear_arith)
                requires
                    t as int >= 0 && x2 as int >= 0,
            ;
        }
        lemma_mul_inequality(q1 as int, q2 as int, u);
        assert(u * q1 == q1 * u) by (nonlinear_arith);
        assert(u * q2 == q2 * u) by (nonlinear_arith);
        lemma_div_is_ordered(u * q1, u * q2, q2 as int);
        lemma_fundamental_div_mod_converse(u * q2, q2 as int, u, 0);
        assert(u * q2 == q2 * u + 0) by (nonlinear_arith);
    }
    let u = (t * x2) / SCALE;
    proof {
        assert(u * q1 <= 2000000000000u128 * 2400u128) by (nonlinear_arith)
            requires
                u <= 2000000000000u128 && q1 <= 2400u128,
        ;
    }
    (u * q1) / q2
}

/// The arcsine of a fixed-point argument in `[0, sqrt(1/2)]`.
fn asin_s(x: u128) -> (r: u128)
    requires
        x <= 707106781186,
    ensures
        r == spec_asin(x as int),
        r <= 2 * x,
{
    proof {
        assert(x * x <= 707106781186u128 * 707106781186u128) by (nonlinear_arith)
            requires
                x <= 707106781186u128,
        ;
        lemma_div_is_ordered(
            x as int * x as int,
            (707106781186 as int) * (707106781186 as int),
            SCALE as int,
        );
    }
    let x2 = (x * x) / SCALE;
    assert(x2 <= SCALE / 2);
    let t1 = asin_step(x, x2, 1, 6);
    let t2 = asin_step(t1, x2, 9, 20);
    let t3 = asin_step(t2, x2, 25, 42);
    let t4 = asin_step(t3, x2, 49, 72);
    let t5 = asin_step(t4, x2, 81, 110);
    let t6 = asin_step(t5, x2, 121, 156);
    let t7 = asin_step(t6, x2, 169, 210);
    let t8 = asin_step(t7, x2, 225, 272);
    let t9 = asin_step(t8, x2, 289, 342);
    let t10 = asin_step(t9, x2, 361, 420);
    let t11 = asin_step(t10, x2, 441, 506);
    let t12 = asin_step(t11, x2, 529, 600);
    let t13 = asin_step(t12, x2, 625, 702);
    let t14 = asin_step(t13, x2, 729, 812);
    let t15 = asin_step(t14, x2, 841, 930);
    let t16 = asin_step(t15, x2, 961, 1056);
    let t17 = asin_step(t16, x2, 1089, 1190);
    let t18 = asin_step(t17, x2, 1225, 1332);
    let t19 = asin_step(t18, x2, 1369, 1482);
    let t20 = asin_step(t19, x2, 1521, 1640);
    let t21 = asin_step(t20, x2, 1681, 1806);
    let t22 = asin_step(t21, x2, 1849, 1980);
    let t23 = asin_step(t22, x2, 2025, 2162);
    let t24 = asin_step(t23, x2, 2209, 2352);
    x + t1 + t2 + t3 + t4 + t5 + t6 + t7 + t8 + t9 + t10 + t11 + t12 + t13 + t14 + t15 + t16
        + t17 + t18 + t19 + t20 + t21 + t22 + t23 + t24
}

#[verifier::rlimit(40)]
proof fn lemma_isqrt_bounds(n: int)
    requires
        n >= 0,
    ensures
        spec_isqrt(n) >= 0,
        spec_isqrt(n) * spec_isqrt(n) <= n,
        n < (spec_isqrt(n) + 1) * (spec_isqrt(n) + 1),
    decreases n,
{
    if n == 0 {
    } else {
        lemma_isqrt_bounds(n / 4);
        let q = spec_isqrt(n / 4);
        let r = 2 * q;
        lemma_fundamental_div_mod(n, 4);
        assert(r * r <= n) by (nonlinear_arith)
            requires
                q * q <= n / 4 && n == 4 * (n / 4) + n % 4 && n % 4 >= 0 && r == 2 * q,
        ;
        assert(n < (r + 2) * (r + 2)) by (nonlinear_arith)
            requires
                n / 4 < (q + 1) * (q + 1) && n == 4 * (n / 4) + n % 4 && n % 4 < 4 && r == 2
                    * q,
        ;
        let res = spec_isqrt(n);
        if (r + 1) * (r + 1) <= n {
            assert(res == r + 1);
            assert((res + 1) * (res + 1) == (r + 2) * (r + 2)) by (nonlinear_arith)
                requires
                    res == r + 1,
            ;
            assert(res * res == (r + 1) * (r + 1)) by (nonlinear_arith)
                requires
                    res == r + 1,
            ;
        } else {
            assert(res == r);
            assert((res + 1) * (res + 1) == (r + 1) * (r + 1)) by (nonlinear_arith)
                requires
                    res == r,
            ;
        }
    }
}

proof fn lemma_isqrt_unique(n: int, r: int)
    requires
        n >= 0,
        r >= 0,
        r * r <= n,
        n < (r + 1) * (r + 1),
    ensures
        r == spec_isqrt(n),
{
    lemma_isqrt_bounds(n);
    let s = spec_isqrt(n);
    if r < s {
        assert((r + 1) * (r + 1) <= s * s) by (nonlinear_arith)
            requires
                0 <= r && r + 1 <= s,
        ;
    }
    if s < r {
        assert((s + 1) * (s + 1) <= r * r) by (nonlinear_arith)
            requires
                0 <= s && s + 1 <= r,
        ;
    }
}

/// The integer square root of an argument up to one at the squared scale.
fn isqrt_u(n: u128) -> (r: u128)
    requires
        n <= SCALE * SCALE,
    ensures
        r == spec_isqrt(n as int),
        r * r <= n,
        n < (r + 1) * (r + 1),
        r <= SCALE,
{
    let mut lo: u128 = 0;
    let mut hi: u128 = SCALE + 1;
    assert(hi * hi > n) by (nonlinear_arith)
        requires
            n <= SCALE * SCALE && hi == SCALE + 1,
    ;
    while hi - lo > 1
        invariant
            lo < hi <= SCALE + 1,
            lo * lo <= n,
            n < hi * hi,
        decreases hi - lo,
    {
        let mid = lo + (hi - lo) / 2;
        assert(lo < mid < hi);
        proof {
            assert(mid * mid <= 2000000000000u128 * 2000000000000u128) by (nonlinear_arith)
                requires
                    mid <= 2000000000000u128,
            ;
        }
        if mid * mid <= n {
            lo = mid;
        } else {
            hi = mid;
        }
    }
    proof {
        lemma_isqrt_unique(n as int, lo as int);
    }
    lo
}

/// An angle in microdegrees converted to fixed-point radians.
fn rad_s(udeg: u128) -> (r: u128)
    requires
        udeg <= 2 * HALF_CIRCLE_UDEG,
    ensures
        r == spec_rad(udeg as int),
        r <= 2 * PI_S,
{
    proof {
        assert(udeg * PI_S <= (2 * HALF_CIRCLE_UDEG) * PI_S) by (nonlinear_arith)
            requires
                udeg <= 2 * HALF_CIRCLE_UDEG,
        ;
        lemma_div_is_ordered(
            (udeg * PI_S) as int,
            ((2 * HALF_CIRCLE_UDEG) * PI_S) as int,
            HALF_CIRCLE_UDEG as int,
        );
        lemma_fundamental_div_mod_converse(
            ((2 * HALF_CIRCLE_UDEG) * PI_S) as int,
            HALF_CIRCLE_UDEG as int,
            (2 * PI_S) as int,
            0,
        );
    }
    (udeg * PI_S) / HALF_CIRCLE_UDEG
}

/// The distance in whole meters between two points given in microdegrees:
/// the haversine formula on a sphere of radius 6371 km, evaluated in
/// fixed-point integer arithmetic.
#[verifier::rlimit(60)]
pub fn distance_meters(lat1: i64, lon1: i64, lat2: i64, lon2: i64) -> (r: u64)
    requires
        valid_coordinate(lat1, lon1),
        valid_coordinate(lat2, lon2),
    ensures
        r == spec_distance_m(lat1, lon1, lat2, lon2),
        r <= 63710000,
{
    let dlat: u128 = if lat1 >= lat2 {
        (lat1 - lat2) as u128
    } else {
        (lat2 - lat1) as u128
    };
    let dlon: u128 = if lon1 >= lon2 {
        (lon1 - lon2) as u128
    } else {
        (lon2 - lon1) as u128
    };
    let alat1: u128 = if lat1 >= 0 {
        lat1 as u128
    } else {
        (-lat1) as u128
    };
    let alat2: u128 = if lat2 >= 0 {
        lat2 as u128
    } else {
        (-lat2) as u128
    };
    let rdlat = rad_s(dlat);
    let rdlon = rad_s(dlon);
    let half_dlat = rdlat / 2;
    let half_dlon = rdlon / 2;
    proof {
        lemma_div_is_ordered(rdlat as int, (2 * PI_S) as int, 2);
        lemma_div_is_ordered(rdlon as int, (2 * PI_S) as int, 2);
        lemma_fundamental_div_mod_converse((2 * PI_S) as int, 2, PI_S as int, 0);
        // The latitude differences stay within half a circle.
        assert(dlat <= HALF_CIRCLE_UDEG);
        assert(dlat * PI_S <= HALF_CIRCLE_UDEG * PI_S) by (nonlinear_arith)
            requires
                dlat <= HALF_CIRCLE_UDEG,
        ;
        lemma_div_is_ordered(
            (dlat * PI_S) as int,
            (HALF_CIRCLE_UDEG * PI_S) as int,
            HALF_CIRCLE_UDEG as int,
        );
        lemma_fundamental_div_mod_converse(
            (HALF_CIRCLE_UDEG * PI_S) as int,
            HALF_CIRCLE_UDEG as int,
            PI_S as int,
            0,
        );
        lemma_div_is_ordered(rdlat as int, PI_S as int, 2);
        lemma_fundamental_div_mod_converse(PI_S as int, 2, HALF_PI_S as int, 0);
    }
    let sh1 = sin_half_s(half_dlat);
    let sh2 = if half_dlon <= HALF_PI_S {
        sin_half_s(half_dlon)
    } else {
        sin_half_s(PI_S - half_dlon)
    };
    assert(sh2 == spec_sin(half_dlon as int));
    assert(sh2 <= 5 * PI_S);
    // The cosine of a latitude, as the sine of the complement.
    let ralat1 = rad_s(alat1);
    let ralat2 = rad_s(alat2);
    proof {
        assert(alat1 * PI_S <= 90000000u128 * PI_S) by (nonlinear_arith)
            requires
                alat1 <= 90000000u128,
        ;
        lemma_div_is_ordered(
            (alat1 * PI_S) as int,
            (90000000 * PI_S) as int,
            HALF_CIRCLE_UDEG as int,
        );
        lemma_fundamental_div_mod_converse(
            (90000000 * PI_S) as int,
            HALF_CIRCLE_UDEG as int,
            HALF_PI_S as int,
            0,
        );
        assert(alat2 * PI_S <= 90000000u128 * PI_S) by (nonlinear_arith)
            requires
                alat2 <= 90000000u128,
        ;
        lemma_div_is_ordered(
            (alat2 * PI_S) as int,
            (90000000 * PI_S) as int,
            HALF_CIRCLE_UDEG as int,
        );
    }
    let c1 = sin_half_s(HALF_PI_S - ralat1);
    let c2 = sin_half_s(HALF_PI_S - ralat2);
    // The haversine term, clamped onto [0, 1].
    proof {
        assert(sh1 * sh1 <= 10000000000000u128 * 10000000000000u128) by (nonlinear_arith)
            requires
                sh1 <= 10000000000000u128,
        ;
        assert(sh2 * sh2 <= 20000000000000u128 * 20000000000000u128) by (nonlinear_arith)
            requires
                sh2 <= 20000000000000u128,
        ;
        assert(c1 * c2 <= 10000000000000u128 * 10000000000000u128) by (nonlinear_arith)
            requires
                c1 <= 10000000000000u128 && c2 <= 10000000000000u128,
        ;
    }
    let cc = (c1 * c2) / SCALE;
    let ss2 = (sh2 * sh2) / SCALE;
    proof {
        lemma_div_is_ordered(
            (c1 * c2) as int,
            (10000000000000 * 10000000000000) as int,
            SCALE as int,
        );
        lemma_div_is_ordered(
            (sh2 * sh2) as int,
            (20000000000000 * 20000000000000) as int,
            SCALE as int,
        );
        assert(cc * ss2 <= 100000000000000u128 * 400000000000000u128) by (nonlinear_arith)
            requires
                cc <= 100000000000000u128 && ss2 <= 400000000000000u128,
        ;
    }
    let a_raw = (sh1 * sh1) / SCALE + ((cc * ss2) / SCALE);
    let a = if a_raw > SCALE {
        SCALE
    } else {
        a_raw
    };
    assert(a == spec_hav_a(lat1 as int, lon1 as int, lat2 as int, lon2 as int));
    // Half the great-circle angle, by the arcsine on the fast side.
    let th: u128;
    if a <= SCALE / 2 {
        proof {
            assert(a * SCALE <= (SCALE / 2) * SCALE) by (nonlinear_arith)
                requires
                    a <= SCALE / 2,
            ;
        }
        let x = isqrt_u(a * SCALE);
        proof {
            assert(707106781187u128 * 707106781187u128 > (SCALE / 2) * SCALE) by (nonlinear_arith);
            lemma_isqrt_bounds((a * SCALE) as int);
            assert(x <= 707106781186) by (nonlinear_arith)
                requires
                    x * x <= a * SCALE && a * SCALE <= (SCALE / 2) * SCALE && 707106781187u128
                        * 707106781187u128 > (SCALE / 2) * SCALE,
            ;
        }
        th = asin_s(x);
    } else {
        proof {
            assert((SCALE - a) * SCALE <= (SCALE / 2) * SCALE) by (nonlinear_arith)
                requires
                    SCALE - a <= SCALE / 2,
            ;
        }
        let x = isqrt_u((SCALE - a) * SCALE);
        proof {
            assert(707106781187u128 * 707106781187u128 > (SCALE / 2) * SCALE) by (nonlinear_arith);
            assert(x <= 707106781186) by (nonlinear_arith)
                requires
                    x * x <= (SCALE - a) * SCALE && (SCALE - a) * SCALE <= (SCALE / 2) * SCALE
                        && 707106781187u128 * 707106781187u128 > (SCALE / 2) * SCALE,
            ;
        }
        let asn = asin_s(x);
        assert(asn <= 2 * 707106781186);
        th = HALF_PI_S - asn;
    }
    assert(th == spec_half_angle(a as int));
    assert(th <= HALF_PI_S + 4 * 707106781186);
    proof {
        assert(EARTH_DIAMETER_M * th <= EARTH_DIAMETER_M * 5000000000000u128) by (nonlinear_arith)
            requires
                th <= 5000000000000u128,
        ;
        lemma_div_is_ordered(
            (EARTH_DIAMETER_M * th) as int,
            (EARTH_DIAMETER_M * 5000000000000) as int,
            SCALE as int,
        );
        lemma_fundamental_div_mod_converse(
            (EARTH_DIAMETER_M * 5000000000000) as int,
            SCALE as int,
            (EARTH_DIAMETER_M * 5) as int,
            0,
        );
    }
    let d = (EARTH_DIAMETER_M * th) / SCALE;
    proof {
        reveal(spec_distance_m);
    }
    d as u64
}

} // verus!
