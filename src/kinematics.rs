use vstd::prelude::*;

verus! {

/// A 2D vector of integer length units.
#[derive(Clone, Copy, Debug, PartialEq, Eq, Structural)]
pub struct Vec2 {
    pub x: i64,
    pub y: i64,
}

/// Motion quantities saturate at this magnitude, so that negating one never
/// overflows.
pub const LIMIT: i64 = 0x7fff_ffff_ffff_ffff;

pub open spec fn sat(v: int) -> int {
    if v > LIMIT {
        LIMIT as int
    } else if v < -LIMIT {
        -LIMIT
    } else {
        v
    }
}

pub open spec fn in_limit(v: Vec2) -> bool {
    -LIMIT <= v.x && -LIMIT <= v.y
}

pub open spec fn vzero() -> Vec2 {
    Vec2 { x: 0, y: 0 }
}

/// Squared Euclidean magnitude.
pub open spec fn mag2(v: Vec2) -> int {
    v.x * v.x + v.y * v.y
}

/// Integer division that rounds toward zero.
pub open spec fn div_toward_zero(a: int, d: int) -> int {
    if a >= 0 {
        a / d
    } else {
        -((-a) / d)
    }
}

/// The least `s >= 0` with `s * s >= m`.
pub open spec fn is_ceil_sqrt(s: int, m: int) -> bool {
    &&& s >= 0
    &&& s * s >= m
    &&& (s == 0 || (s - 1) * (s - 1) < m)
}

pub open spec fn ceil_sqrt(m: int) -> int {
    choose|s: int| is_ceil_sqrt(s, m)
}

/// `q`, except that a zero `q` takes the sign of a nonzero `v`.
pub open spec fn keep_nonzero(q: int, v: int) -> int {
    if q == 0 && v > 0 {
        1
    } else if q == 0 && v < 0 {
        -1
    } else {
        q
    }
}

/// `v` scaled down to magnitude `max`, keeping its direction: components
/// round toward zero, but a nonzero component stays nonzero (so the
/// magnitude may exceed `max` by rounding, each component never).
pub open spec fn clamp_mag(v: Vec2, max: int) -> Vec2 {
    if mag2(v) <= max * max {
        v
    } else if max == 0 {
        vzero()
    } else {
        Vec2 {
            x: keep_nonzero(div_toward_zero(v.x * max, ceil_sqrt(mag2(v))), v.x as int) as i64,
            y: keep_nonzero(div_toward_zero(v.y * max, ceil_sqrt(mag2(v))), v.y as int) as i64,
        }
    }
}

pub open spec fn sat_add(a: Vec2, b: Vec2) -> Vec2 {
    Vec2 { x: sat(a.x + b.x) as i64, y: sat(a.y + b.y) as i64 }
}

proof fn lemma_ceil_sqrt_unique(s: int, t: int, m: int)
    requires
        is_ceil_sqrt(s, m),
        is_ceil_sqrt(t, m),
    ensures
        s == t,
{
    if s < t {
        assert((t - 1) * (t - 1) >= s * s) by (nonlinear_arith)
            requires
                0 <= s <= t - 1,
        ;
    } else if t < s {
        assert((s - 1) * (s - 1) >= t * t) by (nonlinear_arith)
            requires
                0 <= t <= s - 1,
        ;
    }
}

proof fn lemma_ceil_sqrt_exists(m: int)
    requires
        m >= 0,
    ensures
        is_ceil_sqrt(ceil_sqrt(m), m),
    decreases m,
{
    if m == 0 {
        assert(is_ceil_sqrt(0, 0));
    } else {
        lemma_ceil_sqrt_exists(m - 1);
        let t = ceil_sqrt(m - 1);
        if t * t >= m {
            assert(is_ceil_sqrt(t, m));
        } else {
            assert((t + 1) * (t + 1) == t * t + 2 * t + 1) by (nonlinear_arith);
            assert(t * t >= 0) by (nonlinear_arith);
            assert(is_ceil_sqrt(t + 1, m));
        }
    }
}

/// The ceiling square root of a positive number is positive.
proof fn lemma_ceil_sqrt_positive(m: int)
    requires
        m > 0,
    ensures
        ceil_sqrt(m) > 0,
        ceil_sqrt(m) * ceil_sqrt(m) >= m,
{
    lemma_ceil_sqrt_exists(m);
}

/// Bounds and signs of the components of a clamped vector.
pub proof fn lemma_clamp_components(v: Vec2, max: int)
    requires
        in_limit(v),
        0 < max <= LIMIT,
        mag2(v) > max * max,
    ensures
        -max <= clamp_mag(v, max).x <= max,
        -max <= clamp_mag(v, max).y <= max,
        v.x < 0 ==> clamp_mag(v, max).x < 0,
        v.x > 0 ==> clamp_mag(v, max).x > 0,
        v.y < 0 ==> clamp_mag(v, max).y < 0,
        v.y > 0 ==> clamp_mag(v, max).y > 0,
{
    let m = mag2(v);
    assert(m >= 0) by (nonlinear_arith)
        requires
            m == v.x * v.x + v.y * v.y,
    ;
    lemma_ceil_sqrt_positive(m);
    let s = ceil_sqrt(m);
    lemma_component_quotient(v.x as int, v.y as int, max, s);
    lemma_component_quotient(v.y as int, v.x as int, max, s);
}

proof fn lemma_component_quotient(x: int, y: int, max: int, s: int)
    requires
        max > 0,
        s > 0,
        s * s >= x * x + y * y,
    ensures
        -max <= keep_nonzero(div_toward_zero(x * max, s), x) <= max,
        x < 0 ==> keep_nonzero(div_toward_zero(x * max, s), x) < 0,
        x > 0 ==> keep_nonzero(div_toward_zero(x * max, s), x) > 0,
{
    let a = if x >= 0 { x } else { -x };
    assert(s >= a) by (nonlinear_arith)
        requires
            s > 0,
            s * s >= x * x + y * y,
            a == if x >= 0 { x } else { -x },
    ;
    assert(x * max == if x >= 0 { a * max } else { -(a * max) }) by (nonlinear_arith)
        requires
            a == if x >= 0 { x } else { -x },
    ;
    assert(0 <= (a * max) / s <= max) by (nonlinear_arith)
        requires
            0 <= a <= s,
            max > 0,
            s > 0,
    ;
}

/// Ceiling square root of `m`, by bisection.
fn ceil_sqrt_exec(m: u128) -> (s: u128)
    ensures
        is_ceil_sqrt(s as int, m as int),
        s as int == ceil_sqrt(m as int),
{
    if m == 0 {
        proof {
            assert(is_ceil_sqrt(0, 0));
            lemma_ceil_sqrt_unique(0, ceil_sqrt(0), 0);
        }
        return 0;
    }
    // lo * lo < m <= hi * hi
    let mut lo: u128 = 0;
    let mut hi: u128 = 0x1_0000_0000_0000_0000;
    assert(hi * hi == 0x1_0000_0000_0000_0000_0000_0000_0000_0000int);
    while hi - lo > 1
        invariant
            lo < hi <= 0x1_0000_0000_0000_0000,
            lo * lo < m,
            m <= hi * hi,
        decreases hi - lo,
    {
        let mid: u128 = lo + (hi - lo) / 2;
        assert(mid * mid < 0x1_0000_0000_0000_0000_0000_0000_0000_0000int) by (nonlinear_arith)
            requires
                0 <= mid < 0x1_0000_0000_0000_0000int,
        ;
        if mid * mid >= m {
            hi = mid;
        } else {
            lo = mid;
        }
    }
    assert(is_ceil_sqrt(hi as int, m as int));
    proof {
        assert(exists|t: int| is_ceil_sqrt(t, m as int));
        lemma_ceil_sqrt_unique(hi as int, ceil_sqrt(m as int), m as int);
    }
    hi
}

proof fn lemma_quotient_square(a: int, mx: int, s: int, q: int)
    requires
        a >= 0,
        mx >= 0,
        s > 0,
        q == (a * mx) / s,
    ensures
        q * q * (s * s) <= (a * a) * (mx * mx),
        q >= 0,
{
    assert(q * s <= a * mx) by (nonlinear_arith)
        requires
            s > 0,
            q == (a * mx) / s,
    ;
    assert(q >= 0) by (nonlinear_arith)
        requires
            a >= 0,
            mx >= 0,
            s > 0,
            q == (a * mx) / s,
    ;
    assert(q * q * (s * s) <= (a * a) * (mx * mx)) by (nonlinear_arith)
        requires
            0 <= q * s <= a * mx,
            q >= 0,
            s > 0,
    ;
}

proof fn lemma_sum_bound(qx: int, qy: int, s: int, m: int, mx: int)
    requires
        s > 0,
        s * s >= m,
        qx * qx * (s * s) + qy * qy * (s * s) <= m * (mx * mx),
    ensures
        qx * qx + qy * qy <= mx * mx,
{
    assert(m * (mx * mx) <= (s * s) * (mx * mx)) by (nonlinear_arith)
        requires
            s * s >= m,
    ;
    assert((qx * qx + qy * qy) * (s * s) <= (mx * mx) * (s * s)) by (nonlinear_arith)
        requires
            qx * qx * (s * s) + qy * qy * (s * s) <= m * (mx * mx),
            m * (mx * mx) <= (s * s) * (mx * mx),
    ;
    assert(qx * qx + qy * qy <= mx * mx) by (nonlinear_arith)
        requires
            (qx * qx + qy * qy) * (s * s) <= (mx * mx) * (s * s),
            s > 0,
    ;
}

fn magnitude(v: i64) -> (r: u128)
    requires
        -LIMIT <= v,
    ensures
        r == if v >= 0 { v as int } else { -v },
        r <= LIMIT,
{
    if v >= 0 {
        v as u128
    } else {
        (-v) as u128
    }
}

/// Scales `v` down to magnitude `max`, keeping its direction; see `clamp_mag`.
pub fn clamp_magnitude(v: Vec2, max: i64) -> (r: Vec2)
    requires
        max >= 0,
        in_limit(v),
    ensures
        r == clamp_mag(v, max as int),
        -max <= r.x <= max || r.x == v.x,
        -max <= r.y <= max || r.y == v.y,
        mag2(v) > max * max ==> -max <= r.x <= max && -max <= r.y <= max,
        mag2(r) <= max * max + 2,
        mag2(v) <= max * max ==> r == v,
        in_limit(r),
{
    let ax = magnitude(v.x);
    let ay = magnitude(v.y);
    assert(ax * ax <= LIMIT * LIMIT) by (nonlinear_arith)
        requires
            0 <= ax <= LIMIT,
    ;
    assert(ay * ay <= LIMIT * LIMIT) by (nonlinear_arith)
        requires
            0 <= ay <= LIMIT,
    ;
    assert(max * max <= LIMIT * LIMIT) by (nonlinear_arith)
        requires
            0 <= max <= LIMIT,
    ;
    let m: u128 = ax * ax + ay * ay;
    let mx: u128 = max as u128;
    assert(m == mag2(v)) by (nonlinear_arith)
        requires
            m == ax * ax + ay * ay,
            ax == if v.x >= 0 { v.x as int } else { -v.x },
            ay == if v.y >= 0 { v.y as int } else { -v.y },
    ;
    if m <= mx * mx {
        return v;
    }
    if mx == 0 {
        let z = Vec2 { x: 0, y: 0 };
        assert(mag2(z) == 0);
        return z;
    }
    let s = ceil_sqrt_exec(m);
    proof {
        lemma_clamp_components(v, max as int);
    }
    assert(s > mx) by (nonlinear_arith)
        requires
            s * s >= m,
            m > mx * mx,
            s >= 0,
            mx >= 0,
    ;
    assert(ax * mx <= LIMIT * LIMIT) by (nonlinear_arith)
        requires
            0 <= ax <= LIMIT,
            0 <= mx <= LIMIT,
    ;
    assert(ay * mx <= LIMIT * LIMIT) by (nonlinear_arith)
        requires
            0 <= ay <= LIMIT,
            0 <= mx <= LIMIT,
    ;
    let qx: u128 = ax * mx / s;
    let qy: u128 = ay * mx / s;
    proof {
        lemma_quotient_square(ax as int, mx as int, s as int, qx as int);
        lemma_quotient_square(ay as int, mx as int, s as int, qy as int);
        assert((ax * ax) * (mx * mx) + (ay * ay) * (mx * mx) == m * (mx * mx)) by (nonlinear_arith)
            requires
                m == ax * ax + ay * ay,
        ;
        lemma_sum_bound(qx as int, qy as int, s as int, m as int, mx as int);
    }
    assert(qx <= mx && qy <= mx) by (nonlinear_arith)
        requires
            qx * qx + qy * qy <= mx * mx,
            qx >= 0,
            qy >= 0,
            mx > 0,
    ;
    let bx: u128 = if qx == 0 && ax != 0 { 1 } else { qx };
    let by: u128 = if qy == 0 && ay != 0 { 1 } else { qy };
    let x: i64 = if v.x >= 0 { bx as i64 } else { -(bx as i64) };
    let y: i64 = if v.y >= 0 { by as i64 } else { -(by as i64) };
    assert(v.x * max == if v.x >= 0 { ax * mx } else { -(ax * mx) }) by (nonlinear_arith)
        requires
            ax == if v.x >= 0 { v.x as int } else { -v.x },
            mx == max,
    ;
    assert(v.y * max == if v.y >= 0 { ay * mx } else { -(ay * mx) }) by (nonlinear_arith)
        requires
            ay == if v.y >= 0 { v.y as int } else { -v.y },
            mx == max,
    ;
    let r = Vec2 { x, y };
    assert(mag2(r) == bx * bx + by * by) by (nonlinear_arith)
        requires
            x == if v.x >= 0 { bx as int } else { -bx },
            y == if v.y >= 0 { by as int } else { -by },
            r.x == x,
            r.y == y,
    ;
    assert(bx * bx <= qx * qx + 1 && by * by <= qy * qy + 1);
    r
}

/// Component-wise sum, saturating at `LIMIT`.
pub fn saturating_add(a: Vec2, b: Vec2) -> (r: Vec2)
    requires
        in_limit(a),
        in_limit(b),
    ensures
        r == sat_add(a, b),
        in_limit(r),
{
    Vec2 { x: sat_add_i64(a.x, b.x), y: sat_add_i64(a.y, b.y) }
}

fn sat_add_i64(a: i64, b: i64) -> (r: i64)
    requires
        -LIMIT <= a,
        -LIMIT <= b,
    ensures
        r == sat(a + b),
{
    let s: i128 = a as i128 + b as i128;
    if s > LIMIT as i128 {
        LIMIT
    } else if s < -(LIMIT as i128) {
        -LIMIT
    } else {
        s as i64
    }
}

} // verus!
