//! Great-circle distance by the haversine formula with Earth radius
//! 6371 km, in fixed-point integer arithmetic.
//!
//! Angles are held in nano-radians, unit fractions scaled by one
//! billion. Sines come from a degree-seven series after quadrant
//! reduction, the arc from an arcsine series with the complementary
//! identity for large arguments; the result is accurate to a few parts
//! per thousand, well within the tolerance the trend reporting needs.

use vstd::prelude::*;

verus! {

/// One unit, scaled: 1.0 as a fixed-point fraction.
pub const SCALE: i128 = 1_000_000_000;

/// Pi in nano-radians.
pub const PI_NANO: i128 = 3_141_592_654;

/// Pi over two in nano-radians.
pub const HALF_PI_NANO: i128 = 1_570_796_327;

/// Nano-radians per micro-degree, times one million.
pub const NANO_RAD_PER_MICRO_DEG_M: i128 = 17_453_293;

/// Earth radius in kilometers.
pub const EARTH_RADIUS_KM: i128 = 6371;

pub open spec fn abs_i(x: int) -> int {
    if x < 0 {
        -x
    } else {
        x
    }
}

/// Products of bounded factors stay bounded.
proof fn lemma_mul_bounds(a: int, b: int, lo_a: int, hi_a: int, lo_b: int, hi_b: int)
    by (nonlinear_arith)
    requires
        lo_a <= a <= hi_a,
        lo_b <= b <= hi_b,
        0 <= lo_a,
        0 <= lo_b,
    ensures
        lo_a * lo_b <= a * b <= hi_a * hi_b,
{
}

proof fn lemma_sq_monotone(a: int, b: int)
    by (nonlinear_arith)
    requires
        0 <= a < b,
    ensures
        a * a < b * b,
{
}

/// Micro-degrees to nano-radians, rounding the magnitude down.
pub open spec fn spec_to_nano(m: int) -> int {
    if m < 0 {
        -((-m) * (NANO_RAD_PER_MICRO_DEG_M as int) / 1_000_000)
    } else {
        m * (NANO_RAD_PER_MICRO_DEG_M as int) / 1_000_000
    }
}

fn to_nano(m: i64) -> (r: i128)
    requires
        -720_000_000 <= m <= 720_000_000,
    ensures
        r == spec_to_nano(m as int),
        abs_i(r as int) <= 12_600_000_000,
        m >= 0 ==> r >= 0,
        m < 0 ==> r <= 0,
{
    let mag: i128 = if m < 0 {
        -(m as i128)
    } else {
        m as i128
    };
    proof {
        lemma_mul_bounds(mag as int, NANO_RAD_PER_MICRO_DEG_M as int, 0, 720_000_000, 0,
            NANO_RAD_PER_MICRO_DEG_M as int);
    }
    let scaled = mag * NANO_RAD_PER_MICRO_DEG_M / 1_000_000;
    if m < 0 {
        -scaled
    } else {
        scaled
    }
}

/// Halves a signed angle, rounding the magnitude down.
pub open spec fn spec_half(x: int) -> int {
    if x < 0 {
        -((-x) / 2)
    } else {
        x / 2
    }
}

fn half_nano(x: i128) -> (r: i128)
    requires
        -13_000_000_000 <= x <= 13_000_000_000,
    ensures
        r == spec_half(x as int),
        abs_i(r as int) <= abs_i(x as int),
{
    if x < 0 {
        -((-x) / 2)
    } else {
        x / 2
    }
}

/// Scaled product of two unit fractions.
pub open spec fn spec_mulscale(a: int, b: int) -> int {
    a * b / (SCALE as int)
}

fn mulscale(a: i128, b: i128, Ghost(ba): Ghost<int>, Ghost(bb): Ghost<int>) -> (r: i128)
    requires
        0 <= a <= ba,
        0 <= b <= bb,
        ba * bb <= 1_000_000_000_000_000_000_000_000,
    ensures
        r == spec_mulscale(a as int, b as int),
        0 <= r <= ba * bb / (SCALE as int),
{
    proof {
        lemma_mul_bounds(a as int, b as int, 0, ba, 0, bb);
        vstd::arithmetic::div_mod::lemma_div_pos_is_pos((a * b) as int, SCALE as int);
        vstd::arithmetic::div_mod::lemma_div_is_ordered((a * b) as int, ba * bb, SCALE as int);
    }
    a * b / SCALE
}

/// The series sine on the first quadrant, clamped to the unit range.
pub open spec fn spec_sin_core(x: int) -> int {
    let x2 = spec_mulscale(x, x);
    let x3 = spec_mulscale(x2, x);
    let x5 = spec_mulscale(x3, x2);
    let x7 = spec_mulscale(x5, x2);
    let raw = x - x3 / 6 + x5 / 120 - x7 / 5040;
    if raw < 0 {
        0
    } else if raw > SCALE as int {
        SCALE as int
    } else {
        raw
    }
}

fn sin_core(x: i128) -> (r: i128)
    requires
        0 <= x <= HALF_PI_NANO + 2,
    ensures
        r == spec_sin_core(x as int),
        0 <= r <= SCALE,
{
    let x2 = mulscale(x, x, Ghost(1_600_000_000), Ghost(1_600_000_000));
    let x3 = mulscale(x2, x, Ghost(2_560_000_000), Ghost(1_600_000_000));
    let x5 = mulscale(x3, x2, Ghost(4_096_000_000), Ghost(2_560_000_000));
    let x7 = mulscale(x5, x2, Ghost(10_485_760_000), Ghost(2_560_000_000));
    let raw = x - x3 / 6 + x5 / 120 - x7 / 5040;
    if raw < 0 {
        0
    } else if raw > SCALE {
        SCALE
    } else {
        raw
    }
}

/// The magnitude of the sine of any angle up to a full turn,
/// by quadrant reduction.
pub open spec fn spec_sin_abs(x: int) -> int {
    let a0 = abs_i(x);
    let a1 = if a0 > PI_NANO as int {
        2 * (PI_NANO as int) - a0
    } else {
        a0
    };
    let a1c = if a1 < 0 {
        0
    } else {
        a1
    };
    let a2 = if a1c > HALF_PI_NANO as int {
        (PI_NANO as int) - a1c
    } else {
        a1c
    };
    spec_sin_core(a2)
}

fn sin_abs(x: i128) -> (r: i128)
    requires
        -6_300_000_000 <= x <= 6_300_000_000,

    ensures
        r == spec_sin_abs(x as int),
        0 <= r <= SCALE,
{
    let a0: i128 = if x < 0 {
        -x
    } else {
        x
    };
    let a1: i128 = if a0 > PI_NANO {
        2 * PI_NANO - a0
    } else {
        a0
    };
    let a1c: i128 = if a1 < 0 {
        0
    } else {
        a1
    };
    let a2: i128 = if a1c > HALF_PI_NANO {
        PI_NANO - a1c
    } else {
        a1c
    };
    sin_core(a2)
}

/// The cosine of a latitude, through the complementary sine.
pub open spec fn spec_cos_lat(x: int) -> int {
    spec_sin_abs((HALF_PI_NANO as int) - x)
}

fn cos_lat(x: i128) -> (r: i128)
    requires
        -1_600_000_000 <= x <= 1_600_000_000,
    ensures
        r == spec_cos_lat(x as int),
        0 <= r <= SCALE,
{
    sin_abs(HALF_PI_NANO - x)
}

/// The rounded-down square root, as a recurrence.
pub open spec fn spec_isqrt(n: int) -> int
    decreases n,
{
    if n <= 0 {
        0
    } else {
        let r = spec_isqrt(n - 1);
        if (r + 1) * (r + 1) <= n {
            r + 1
        } else {
            r
        }
    }
}

proof fn lemma_isqrt_props(n: int)
    requires
        n >= 0,
    ensures
        0 <= spec_isqrt(n),
        spec_isqrt(n) * spec_isqrt(n) <= n,
        (spec_isqrt(n) + 1) * (spec_isqrt(n) + 1) > n,
    decreases n,
{
    if n > 0 {
        lemma_isqrt_props(n - 1);
        let r = spec_isqrt(n - 1);
        if (r + 1) * (r + 1) <= n {
            assert((r + 2) * (r + 2) > n) by (nonlinear_arith)
                requires
                    (r + 1) * (r + 1) > n - 1,
                    (r + 1) * (r + 1) <= n,
                    r >= 0,
            ;
        }
    }
}

fn isqrt(n: i128) -> (r: i128)
    requires
        0 <= n <= 1_000_000_000_000_000_000,
    ensures
        r == spec_isqrt(n as int),
        0 <= r <= SCALE,
{
    let mut lo: i128 = 0;
    let mut hi: i128 = 1_000_000_001;
    proof {
        lemma_mul_bounds(1_000_000_001, 1_000_000_001, 1_000_000_001, 1_000_000_001,
            1_000_000_001, 1_000_000_001);
    }
    while hi - lo > 1
        invariant
            0 <= lo < hi <= 1_000_000_001,
            lo * lo <= n,
            hi * hi > n,
            n <= 1_000_000_000_000_000_000,
        decreases hi - lo,
    {
        let mid = lo + (hi - lo) / 2;
        proof {
            lemma_mul_bounds(mid as int, mid as int, 0, 1_000_000_001, 0, 1_000_000_001);
        }
        if mid * mid <= n {
            lo = mid;
        } else {
            hi = mid;
        }
    }
    proof {
        lemma_isqrt_props(n as int);
        let s = spec_isqrt(n as int);
        if s < lo {
            lemma_sq_monotone(s as int, lo as int);
            assert((s + 1) * (s + 1) <= lo * lo) by (nonlinear_arith)
                requires
                    0 <= s < lo,
            ;
        }
        if s > lo {
            assert(hi * hi <= s * s) by (nonlinear_arith)
                requires
                    0 <= lo < s,
                    hi == lo + 1,
            ;
        }
    }
    lo
}

/// The series arcsine on arguments up to the half-turn split.
pub open spec fn spec_asin_core(z: int) -> int {
    let z2 = spec_mulscale(z, z);
    let z3 = spec_mulscale(z2, z);
    let z5 = spec_mulscale(z3, z2);
    let z7 = spec_mulscale(z5, z2);
    let z9 = spec_mulscale(z7, z2);
    let raw = z + z3 / 6 + 3 * z5 / 40 + 15 * z7 / 336 + 105 * z9 / 3456;
    if raw < 0 {
        0
    } else if raw > HALF_PI_NANO as int {
        HALF_PI_NANO as int
    } else {
        raw
    }
}

fn asin_core(z: i128) -> (r: i128)
    requires
        0 <= z <= 707_106_782,
    ensures
        r == spec_asin_core(z as int),
        0 <= r <= HALF_PI_NANO,
{
    let z2 = mulscale(z, z, Ghost(707_106_782), Ghost(707_106_782));
    let z3 = mulscale(z2, z, Ghost(500_000_001), Ghost(707_106_782));
    let z5 = mulscale(z3, z2, Ghost(353_553_392), Ghost(500_000_001));
    let z7 = mulscale(z5, z2, Ghost(176_776_697), Ghost(500_000_001));
    let z9 = mulscale(z7, z2, Ghost(88_388_349), Ghost(500_000_001));
    let raw = z + z3 / 6 + 3 * z5 / 40 + 15 * z7 / 336 + 105 * z9 / 3456;
    if raw < 0 {
        0
    } else if raw > HALF_PI_NANO {
        HALF_PI_NANO
    } else {
        raw
    }
}

/// The great-circle distance of two micro-degree coordinate pairs, in
/// millimeters.
pub open spec fn spec_haversine_mm(lat1: int, lon1: int, lat2: int, lon2: int) -> int {
    let a1 = spec_to_nano(lat1);
    let a2 = spec_to_nano(lat2);
    let sl = spec_sin_abs(spec_half(spec_to_nano(lat2 - lat1)));
    let so = spec_sin_abs(spec_half(spec_to_nano(lon2 - lon1)));
    let cc = spec_mulscale(spec_cos_lat(a1), spec_cos_lat(a2));
    let h0 = spec_mulscale(sl, sl) + spec_mulscale(cc, spec_mulscale(so, so));
    let h = if h0 > SCALE as int {
        SCALE as int
    } else {
        h0
    };
    let y = spec_isqrt(h * (SCALE as int));
    let x = spec_isqrt(((SCALE as int) - h) * (SCALE as int));
    let half = if y <= x {
        spec_asin_core(y)
    } else {
        (HALF_PI_NANO as int) - spec_asin_core(x)
    };
    2 * half * (EARTH_RADIUS_KM as int) / 1000
}

/// Computes the haversine distance in millimeters.
pub fn haversine_mm(lat1: i64, lon1: i64, lat2: i64, lon2: i64) -> (d: u64)
    requires
        -90_000_000 <= lat1 <= 90_000_000,
        -90_000_000 <= lat2 <= 90_000_000,
        -360_000_000 <= lon1 <= 360_000_000,
        -360_000_000 <= lon2 <= 360_000_000,
    ensures
        d == spec_haversine_mm(lat1 as int, lon1 as int, lat2 as int, lon2 as int),
{
    let a1 = to_nano(lat1);
    let a2 = to_nano(lat2);
    let sl = sin_abs(half_nano(to_nano(lat2 - lat1)));
    let so = sin_abs(half_nano(to_nano(lon2 - lon1)));
    let cc = mulscale(cos_lat(a1), cos_lat(a2), Ghost(SCALE as int), Ghost(SCALE as int));
    let so2 = mulscale(so, so, Ghost(SCALE as int), Ghost(SCALE as int));
    let h0 = mulscale(sl, sl, Ghost(SCALE as int), Ghost(SCALE as int)) + mulscale(
        cc,
        so2,
        Ghost(SCALE as int),
        Ghost(SCALE as int),
    );
    let h: i128 = if h0 > SCALE {
        SCALE
    } else {
        h0
    };
    proof {
        lemma_mul_bounds(h as int, SCALE as int, 0, SCALE as int, 0, SCALE as int);
        lemma_mul_bounds((SCALE - h) as int, SCALE as int, 0, SCALE as int, 0, SCALE as int);
    }
    let y = isqrt(h * SCALE);
    let x = isqrt((SCALE - h) * SCALE);
    let half: i128 = if y <= x {
        proof {
            lemma_isqrt_props((h * SCALE) as int);
            lemma_isqrt_props(((SCALE - h) * SCALE) as int);
            assert(y <= 707_106_782) by (nonlinear_arith)
                requires
                    0 <= y <= x,
                    y * y <= h * SCALE,
                    x * x <= (SCALE - h) * SCALE,
                    0 <= h <= SCALE,
                    SCALE == 1_000_000_000,
            ;
        }
        asin_core(y)
    } else {
        proof {
            lemma_isqrt_props((h * SCALE) as int);
            lemma_isqrt_props(((SCALE - h) * SCALE) as int);
            assert(x <= 707_106_782) by (nonlinear_arith)
                requires
                    0 <= x < y,
                    y * y <= h * SCALE,
                    x * x <= (SCALE - h) * SCALE,
                    0 <= h <= SCALE,
                    SCALE == 1_000_000_000,
            ;
        }
        HALF_PI_NANO - asin_core(x)
    };
    proof {
        lemma_mul_bounds((2 * half) as int, EARTH_RADIUS_KM as int, 0, 2 * HALF_PI_NANO as int, 0,
            EARTH_RADIUS_KM as int);
    }
    (2 * half * EARTH_RADIUS_KM / 1000) as u64
}

/// Law: the distance from any point to itself is zero.
pub proof fn lemma_distance_self_zero(lat: int, lon: int)
    requires
        -90_000_000 <= lat <= 90_000_000,
        -360_000_000 <= lon <= 360_000_000,
    ensures
        spec_haversine_mm(lat, lon, lat, lon) == 0,
{
    assert(spec_to_nano(0) == 0);
    assert(spec_half(0) == 0);
    assert(spec_mulscale(0, 0) == 0);
    assert(spec_sin_core(0) == 0);
    assert(spec_sin_abs(0) == 0);
    let h = 0int;
    assert(spec_isqrt(0) == 0);
    lemma_isqrt_props(((SCALE as int) - h) * (SCALE as int));
    assert(spec_asin_core(0) == 0);
    let c1 = spec_cos_lat(spec_to_nano(lat));
    assert(spec_mulscale(spec_mulscale(c1, c1), 0) == 0);
}

/// Law: the distance is symmetric in its two points.
pub proof fn lemma_distance_symmetric(lat1: int, lon1: int, lat2: int, lon2: int)
    requires
        -90_000_000 <= lat1 <= 90_000_000,
        -90_000_000 <= lat2 <= 90_000_000,
        -360_000_000 <= lon1 <= 360_000_000,
        -360_000_000 <= lon2 <= 360_000_000,
    ensures
        spec_haversine_mm(lat1, lon1, lat2, lon2) == spec_haversine_mm(lat2, lon2, lat1, lon1),
{
    assert(spec_to_nano(lat2 - lat1) == -spec_to_nano(lat1 - lat2));
    assert(spec_to_nano(lon2 - lon1) == -spec_to_nano(lon1 - lon2));
    lemma_half_abs(spec_to_nano(lat1 - lat2));
    lemma_half_abs(spec_to_nano(lon1 - lon2));
    let c1 = spec_cos_lat(spec_to_nano(lat1));
    let c2 = spec_cos_lat(spec_to_nano(lat2));
    assert(c1 * c2 == c2 * c1);
}

/// Halving a negated angle gives the same sine magnitude.
proof fn lemma_half_abs(x: int)
    ensures
        spec_sin_abs(spec_half(-x)) == spec_sin_abs(spec_half(x)),
{
    assert(spec_half(-x) == -spec_half(x));
    assert(abs_i(-spec_half(x)) == abs_i(spec_half(x)));
}

} // verus!
