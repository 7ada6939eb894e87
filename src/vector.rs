use vstd::prelude::*;
use vstd::arithmetic::div_mod::{lemma_fundamental_div_mod, lemma_mod_pos_bound};

verus! {

/// Largest magnitude of a component that the vector helpers accept.
pub const COMPONENT_LIMIT: i64 = 0x4000_0000_0000_0000;

/// A two-dimensional vector with integer components (world units).
#[derive(Clone, Copy, Debug, PartialEq, Eq, Structural)]
pub struct Vec2 {
    pub x: i64,
    pub y: i64,
}

impl View for Vec2 {
    type V = (int, int);

    open spec fn view(&self) -> (int, int) {
        (self.x as int, self.y as int)
    }
}

/// Squared Euclidean length of a vector model.
pub open spec fn norm_sq(v: (int, int)) -> int {
    v.0 * v.0 + v.1 * v.1
}

/// Squared distance between two points.
pub open spec fn dist_sq(a: (int, int), b: (int, int)) -> int {
    norm_sq(diff(a, b))
}

pub open spec fn sum(a: (int, int), b: (int, int)) -> (int, int) {
    (a.0 + b.0, a.1 + b.1)
}

pub open spec fn diff(a: (int, int), b: (int, int)) -> (int, int) {
    (a.0 - b.0, a.1 - b.1)
}

pub open spec fn neg(a: (int, int)) -> (int, int) {
    (-a.0, -a.1)
}

pub open spec fn zero() -> (int, int) {
    (0, 0)
}

/// Both components lie within `[-bound, bound]`.
pub open spec fn within(v: (int, int), bound: int) -> bool {
    -bound <= v.0 <= bound && -bound <= v.1 <= bound
}

/// Division rounding toward zero, as machine integer division does.
pub open spec fn div_trunc(a: int, d: int) -> int {
    if a >= 0 {
        a / d
    } else {
        -((-a) / d)
    }
}

/// Component-wise `v * num / den`, rounded toward zero.
pub open spec fn scale(v: (int, int), num: int, den: int) -> (int, int) {
    (div_trunc(v.0 * num, den), div_trunc(v.1 * num, den))
}

/// `r` is the smallest natural number whose square reaches `n`.
pub open spec fn is_ceil_sqrt(n: int, r: int) -> bool {
    r >= 0 && r * r >= n && (r == 0 || (r - 1) * (r - 1) < n)
}

pub open spec fn ceil_sqrt(n: int) -> int {
    choose|r: int| is_ceil_sqrt(n, r)
}

/// The vector rescaled to length `mag` (rounded toward zero, so never longer);
/// the zero vector has no direction and stays zero.
pub open spec fn with_magnitude(v: (int, int), mag: int) -> (int, int) {
    if v == zero() {
        zero()
    } else {
        scale(v, mag, ceil_sqrt(norm_sq(v)))
    }
}

/// The vector itself if its length is at most `max`, else rescaled to length `max`.
pub open spec fn limit(v: (int, int), max: int) -> (int, int) {
    if norm_sq(v) > max * max {
        with_magnitude(v, max)
    } else {
        v
    }
}

proof fn lemma_square_monotonic(a: int, b: int)
    requires
        0 <= a <= b,
    ensures
        a * a <= b * b,
{
    assert(a * a <= b * b) by (nonlinear_arith)
        requires
            0 <= a <= b,
    ;
}

proof fn lemma_ceil_sqrt_unique(n: int, r1: int, r2: int)
    requires
        is_ceil_sqrt(n, r1),
        is_ceil_sqrt(n, r2),
    ensures
        r1 == r2,
{
    if r1 < r2 {
        lemma_square_monotonic(r1, r2 - 1);
    } else if r2 < r1 {
        lemma_square_monotonic(r2, r1 - 1);
    }
}

proof fn lemma_ceil_sqrt_is(n: int, r: int)
    requires
        is_ceil_sqrt(n, r),
    ensures
        ceil_sqrt(n) == r,
{
    lemma_ceil_sqrt_unique(n, r, ceil_sqrt(n));
}

/// `|div_trunc(a, d)| * d <= |a|`.
proof fn lemma_div_trunc_bound(a: int, d: int)
    requires
        d > 0,
    ensures
        (if div_trunc(a, d) >= 0 { div_trunc(a, d) } else { -div_trunc(a, d) }) * d
            <= (if a >= 0 { a } else { -a }),
{
    let m = if a >= 0 { a } else { -a };
    lemma_fundamental_div_mod(m, d);
    lemma_mod_pos_bound(m, d);
    assert(m / d >= 0) by (nonlinear_arith)
        requires
            m >= 0,
            d > 0,
            m == d * (m / d) + m % d,
            0 <= m % d < d,
    ;
    assert((m / d) * d <= m) by (nonlinear_arith)
        requires
            m == d * (m / d) + m % d,
            0 <= m % d,
    ;
}

/// Dividing by a positive integer never moves a value away from zero.
pub proof fn lemma_div_trunc_shrinks(a: int, d: int, bound: int)
    requires
        d >= 1,
        -bound <= a <= bound,
    ensures
        -bound <= div_trunc(a, d) <= bound,
{
    lemma_div_trunc_bound(a, d);
    let q = div_trunc(a, d);
    let aq = if q >= 0 { q } else { -q };
    assert(aq <= aq * d) by (nonlinear_arith)
        requires
            aq >= 0,
            d >= 1,
    ;
}

/// Rescaling by `mag / m`, where `m` is at least the vector's length, never
/// gives a vector longer than `mag`.
pub proof fn lemma_scale_bounded(v: (int, int), mag: int, m: int)
    requires
        mag >= 0,
        m > 0,
        m * m >= norm_sq(v),
    ensures
        norm_sq(scale(v, mag, m)) <= mag * mag,
        within(scale(v, mag, m), mag),
{
    let r = scale(v, mag, m);
    let ax = if v.0 >= 0 { v.0 } else { -v.0 };
    let ay = if v.1 >= 0 { v.1 } else { -v.1 };
    let qx = if r.0 >= 0 { r.0 } else { -r.0 };
    let qy = if r.1 >= 0 { r.1 } else { -r.1 };
    lemma_div_trunc_bound(v.0 * mag, m);
    lemma_div_trunc_bound(v.1 * mag, m);
    assert(qx * m <= ax * mag) by (nonlinear_arith)
        requires
            qx * m <= (if v.0 * mag >= 0 { v.0 * mag } else { -(v.0 * mag) }),
            ax == (if v.0 >= 0 { v.0 } else { -v.0 }),
            mag >= 0,
    ;
    assert(qy * m <= ay * mag) by (nonlinear_arith)
        requires
            qy * m <= (if v.1 * mag >= 0 { v.1 * mag } else { -(v.1 * mag) }),
            ay == (if v.1 >= 0 { v.1 } else { -v.1 }),
            mag >= 0,
    ;
    assert(qx * m >= 0 && qy * m >= 0) by (nonlinear_arith)
        requires
            qx >= 0,
            qy >= 0,
            m > 0,
    ;
    lemma_square_monotonic(qx * m, ax * mag);
    lemma_square_monotonic(qy * m, ay * mag);
    assert(ax * ax == v.0 * v.0 && ay * ay == v.1 * v.1 && qx * qx == r.0 * r.0 && qy * qy == r.1 * r.1)
        by (nonlinear_arith)
        requires
            ax == v.0 || ax == -v.0,
            ay == v.1 || ay == -v.1,
            qx == r.0 || qx == -r.0,
            qy == r.1 || qy == -r.1,
    ;
    let s = qx * qx + qy * qy;
    let t = ax * ax + ay * ay;
    assert((qx * m) * (qx * m) == (qx * qx) * (m * m)) by (nonlinear_arith);
    assert((qy * m) * (qy * m) == (qy * qy) * (m * m)) by (nonlinear_arith);
    assert((ax * mag) * (ax * mag) == (ax * ax) * (mag * mag)) by (nonlinear_arith);
    assert((ay * mag) * (ay * mag) == (ay * ay) * (mag * mag)) by (nonlinear_arith);
    assert(s * (m * m) == (qx * qx) * (m * m) + (qy * qy) * (m * m)) by (nonlinear_arith)
        requires
            s == qx * qx + qy * qy,
    ;
    assert(t * (mag * mag) == (ax * ax) * (mag * mag) + (ay * ay) * (mag * mag)) by (nonlinear_arith)
        requires
            t == ax * ax + ay * ay,
    ;
    assert(t * (mag * mag) <= (m * m) * (mag * mag)) by (nonlinear_arith)
        requires
            t <= m * m,
            mag * mag >= 0,
    ;
    assert(mag * mag >= 0 && m * m > 0) by (nonlinear_arith)
        requires
            m > 0,
    ;
    assert(s <= mag * mag) by (nonlinear_arith)
        requires
            s * (m * m) <= (m * m) * (mag * mag),
            m * m > 0,
    ;
    assert(qx <= mag && qy <= mag) by (nonlinear_arith)
        requires
            qx * qx + qy * qy <= mag * mag,
            qx >= 0,
            qy >= 0,
            mag >= 0,
    ;
}

/// The result of `limit` is never longer than `max`.
pub proof fn lemma_limit_bounded(v: (int, int), max: int)
    requires
        max >= 0,
    ensures
        norm_sq(limit(v, max)) <= max * max,
        within(limit(v, max), max),
{
    if norm_sq(v) > max * max {
        if v != zero() {
            let n = norm_sq(v);
            let m = ceil_sqrt(n);
            lemma_ceil_sqrt_exists(n);
            assert(m > 0) by (nonlinear_arith)
                requires
                    m >= 0,
                    m * m >= n,
                    n > max * max,
                    max >= 0,
            ;
            lemma_scale_bounded(v, max, m);
        } else {
            assert(max * max >= 0) by (nonlinear_arith);
        }
    } else {
        let v2 = v;
        assert(v2.0 <= max && -max <= v2.0 && v2.1 <= max && -max <= v2.1) by (nonlinear_arith)
            requires
                v2.0 * v2.0 + v2.1 * v2.1 <= max * max,
                max >= 0,
        ;
    }
}

/// Every natural number has a ceiling square root.
proof fn lemma_ceil_sqrt_exists(n: int)
    ensures
        n >= 0 ==> is_ceil_sqrt(n, ceil_sqrt(n)),
    decreases (if n >= 0 { n } else { 0 }),
{
    if n > 0 {
        lemma_ceil_sqrt_exists(n - 1);
        let r = ceil_sqrt(n - 1);
        if r * r >= n {
            assert(is_ceil_sqrt(n, r));
        } else {
            assert(r * r == n - 1);
            assert(is_ceil_sqrt(n, r + 1)) by (nonlinear_arith)
                requires
                    r >= 0,
                    r * r == n - 1,
            ;
        }
    } else if n == 0 {
        assert(is_ceil_sqrt(0, 0));
    }
}

/// Smallest `r` with `r * r >= n`.
pub fn isqrt_ceil(n: u128) -> (r: u128)
    requires
        n <= 0x4000_0000_0000_0000_0000_0000_0000_0000u128,
    ensures
        r as int == ceil_sqrt(n as int),
        r <= 0x8000_0000_0000_0000u128,
{
    let mut lo: u128 = 0;
    let mut hi: u128 = 0x8000_0000_0000_0000u128;
    assert(hi * hi == 0x4000_0000_0000_0000_0000_0000_0000_0000u128);
    while lo < hi
        invariant
            lo <= hi <= 0x8000_0000_0000_0000u128,
            hi * hi >= n,
            lo == 0 || (lo - 1) * (lo - 1) < n,
        decreases hi - lo,
    {
        let mid: u128 = lo + (hi - lo) / 2;
        assert(mid * mid <= 0x4000_0000_0000_0000_0000_0000_0000_0000u128) by (nonlinear_arith)
            requires
                mid <= 0x8000_0000_0000_0000u128,
        ;
        if mid * mid >= n {
            hi = mid;
        } else {
            lo = mid + 1;
        }
    }
    proof {
        lemma_ceil_sqrt_is(n as int, lo as int);
    }
    lo
}

/// `a / d` rounded toward zero, for a positive divisor.
pub(crate) fn div_trunc_exec(a: i128, d: i128) -> (r: i128)
    requires
        d > 0,
        a > i128::MIN,
    ensures
        r as int == div_trunc(a as int, d as int),
{
    if a >= 0 {
        a / d
    } else {
        let q = (-a) / d;
        -q
    }
}

/// Rescales `v` to length `mag` (never longer); the zero vector stays zero.
pub fn set_magnitude(v: Vec2, mag: i64) -> (r: Vec2)
    requires
        within(v@, COMPONENT_LIMIT as int),
        0 <= mag <= COMPONENT_LIMIT,
    ensures
        r@ == with_magnitude(v@, mag as int),
        norm_sq(r@) <= mag * mag,
        within(r@, mag as int),
{
    if v.x == 0 && v.y == 0 {
        proof {
            assert(mag * mag >= 0) by (nonlinear_arith);
        }
        return v;
    }
    let x = v.x as i128;
    let y = v.y as i128;
    proof {
        assert(x * x <= 0x1000_0000_0000_0000_0000_0000_0000_0000 && y * y <= 0x1000_0000_0000_0000_0000_0000_0000_0000) by (nonlinear_arith)
            requires
                -0x4000_0000_0000_0000 <= x <= 0x4000_0000_0000_0000,
                -0x4000_0000_0000_0000 <= y <= 0x4000_0000_0000_0000,
        ;
        assert(x * x >= 0 && y * y >= 0) by (nonlinear_arith);
        assert(x * x + y * y > 0) by (nonlinear_arith)
            requires
                x != 0 || y != 0,
        ;
    }
    let n = x * x + y * y;
    let m = isqrt_ceil(n as u128) as i128;
    let ghost s = n as int;
    proof {
        lemma_ceil_sqrt_exists(s);
        assert(m > 0) by (nonlinear_arith)
            requires
                m >= 0,
                m * m >= s,
                s > 0,
        ;
        assert(x * mag <= 0x1000_0000_0000_0000_0000_0000_0000_0000 && x * mag >= -0x1000_0000_0000_0000_0000_0000_0000_0000) by (nonlinear_arith)
            requires
                -0x4000_0000_0000_0000 <= x <= 0x4000_0000_0000_0000,
                0 <= mag <= 0x4000_0000_0000_0000,
        ;
        assert(y * mag <= 0x1000_0000_0000_0000_0000_0000_0000_0000 && y * mag >= -0x1000_0000_0000_0000_0000_0000_0000_0000) by (nonlinear_arith)
            requires
                -0x4000_0000_0000_0000 <= y <= 0x4000_0000_0000_0000,
                0 <= mag <= 0x4000_0000_0000_0000,
        ;
        lemma_scale_bounded(v@, mag as int, m as int);
    }
    let rx = div_trunc_exec(x * (mag as i128), m);
    let ry = div_trunc_exec(y * (mag as i128), m);
    Vec2 { x: rx as i64, y: ry as i64 }
}

/// `v` if its length is at most `max`, else `v` rescaled to length `max`.
pub fn limit_magnitude(v: Vec2, max: i64) -> (r: Vec2)
    requires
        within(v@, COMPONENT_LIMIT as int),
        0 <= max <= COMPONENT_LIMIT,
    ensures
        r@ == limit(v@, max as int),
        norm_sq(r@) <= max * max,
        within(r@, max as int),
{
    proof {
        lemma_limit_bounded(v@, max as int);
    }
    let x = v.x as i128;
    let y = v.y as i128;
    let m = max as i128;
    proof {
        assert(x * x <= 0x1000_0000_0000_0000_0000_0000_0000_0000 && y * y <= 0x1000_0000_0000_0000_0000_0000_0000_0000) by (nonlinear_arith)
            requires
                -0x4000_0000_0000_0000 <= x <= 0x4000_0000_0000_0000,
                -0x4000_0000_0000_0000 <= y <= 0x4000_0000_0000_0000,
        ;
        assert(m * m <= 0x1000_0000_0000_0000_0000_0000_0000_0000) by (nonlinear_arith)
            requires
                0 <= m <= 0x4000_0000_0000_0000,
        ;
        assert(x * x >= 0 && y * y >= 0) by (nonlinear_arith);
    }
    if x * x + y * y > m * m {
        set_magnitude(v, max)
    } else {
        v
    }
}

} // verus!
