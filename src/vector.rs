//! Fixed-point 2D vectors: exact integer rounding, square roots and length
//! clamping.
use vstd::prelude::*;

verus! {

/// Number of sub-units in one plane unit.
pub const SCALE: i64 = 256;

/// Largest magnitude of a component that `scale_to` and `clamp_length_max` accept.
pub const WIDE_MAX: i64 = 0x1000_0000_0000_0000;

/// Largest target length that `scale_to` and `clamp_length_max` accept.
pub const LEN_MAX: i64 = 0x100_0000;

/// A 2D vector in fixed-point sub-units.
#[derive(Clone, Copy, Debug, PartialEq, Eq, Structural)]
pub struct Vec2 {
    pub x: i64,
    pub y: i64,
}

/// The zero vector.
pub open spec fn zero() -> (int, int) {
    (0, 0)
}

/// Integer division rounded toward zero, for a positive divisor.
pub open spec fn tdiv(a: int, b: int) -> int {
    if a >= 0 {
        a / b
    } else {
        -((-a) / b)
    }
}

pub open spec fn abs(a: int) -> int {
    if a >= 0 { a } else { -a }
}

/// Squared length of `(x, y)`.
pub open spec fn len_sq(x: int, y: int) -> int {
    x * x + y * y
}

/// `r` is the smallest natural number whose square is at least `n`.
pub open spec fn is_ceil_sqrt(n: int, r: int) -> bool {
    r >= 0 && r * r >= n && (r == 0 || (r - 1) * (r - 1) < n)
}

/// The square root of `n` rounded up.
pub open spec fn ceil_sqrt(n: int) -> int {
    choose|r: int| is_ceil_sqrt(n, r)
}

/// `(x, y)` rescaled to length `m`, rounding each component toward zero;
/// the zero vector stays zero.
pub open spec fn scale_to(x: int, y: int, m: int) -> (int, int) {
    if len_sq(x, y) == 0 {
        zero()
    } else {
        let l = ceil_sqrt(len_sq(x, y));
        (tdiv(x * m, l), tdiv(y * m, l))
    }
}

/// `(x, y)` shortened to length `m` when it is longer, kept otherwise.
pub open spec fn clamp_len(x: int, y: int, m: int) -> (int, int) {
    if len_sq(x, y) <= m * m {
        (x, y)
    } else {
        scale_to(x, y, m)
    }
}

proof fn lemma_square_mono(a: int, b: int)
    requires
        0 <= a <= b,
    ensures
        a * a <= b * b,
{
    assert(a * a <= b * b) by (nonlinear_arith)
        requires
            0 <= a <= b,
    ;
}

/// At most one natural number is the rounded-up square root of `n`.
proof fn lemma_ceil_sqrt_unique(n: int, r: int)
    requires
        is_ceil_sqrt(n, r),
    ensures
        ceil_sqrt(n) == r,
{
    let c = ceil_sqrt(n);
    assert(is_ceil_sqrt(n, c));
    if c < r {
        lemma_square_mono(c, r - 1);
    } else if r < c {
        lemma_square_mono(r, c - 1);
    }
}

/// Truncating division never grows a value, and keeps its sign.
pub proof fn lemma_tdiv(a: int, b: int)
    requires
        b > 0,
    ensures
        abs(tdiv(a, b)) * b <= abs(a),
        abs(tdiv(a, b)) <= abs(a),
        tdiv(a, b) * a >= 0,
{
    let q = abs(a) / b;
    assert(q * b <= abs(a)) by (nonlinear_arith)
        requires
            b > 0,
            abs(a) >= 0,
            q == abs(a) / b,
    ;
    assert(q <= abs(a)) by (nonlinear_arith)
        requires
            b > 0,
            q >= 0,
            q * b <= abs(a),
    ;
    assert(q >= 0);
    if a < 0 {
        assert(tdiv(a, b) * a == q * abs(a)) by (nonlinear_arith)
            requires
                tdiv(a, b) == -q,
                abs(a) == -a,
        ;
        assert(q * abs(a) >= 0) by (nonlinear_arith)
            requires
                q >= 0,
                abs(a) >= 0,
        ;
    } else {
        assert(q * a >= 0) by (nonlinear_arith)
            requires
                q >= 0,
                a >= 0,
        ;
    }
}

/// Truncating division of `a` by a positive `b`.
pub fn div_toward_zero(a: i128, b: i128) -> (r: i128)
    requires
        b > 0,
        a > i128::MIN,
    ensures
        r == tdiv(a as int, b as int),
        abs(r as int) <= abs(a as int),
{
    proof {
        lemma_tdiv(a as int, b as int);
    }
    if a >= 0 {
        a / b
    } else {
        -((-a) / b)
    }
}

/// The rounded-up square root of `n`.
pub fn ceil_sqrt_exec(n: u128) -> (r: u128)
    requires
        n < 0x1000_0000_0000_0000_0000_0000_0000_0000,
    ensures
        is_ceil_sqrt(n as int, r as int),
        r as int == ceil_sqrt(n as int),
        r <= 0x4000_0000_0000_0000,
        n > 0 ==> r > 0,
{
    // floor square root by bisection: lo * lo <= n < hi * hi
    let mut lo: u128 = 0;
    let mut hi: u128 = 0x4000_0000_0000_0000;
    assert(hi * hi > n) by (nonlinear_arith)
        requires
            hi == 0x4000_0000_0000_0000u128,
            n < 0x1000_0000_0000_0000_0000_0000_0000_0000u128,
    ;
    while hi - lo > 1
        invariant
            lo < hi <= 0x4000_0000_0000_0000,
            lo * lo <= n,
            n < hi * hi,
        decreases hi - lo,
    {
        let mid: u128 = lo + (hi - lo) / 2;
        assert(mid * mid <= 0x4000_0000_0000_0000u128 * 0x4000_0000_0000_0000u128) by (nonlinear_arith)
            requires
                mid <= 0x4000_0000_0000_0000u128,
        ;
        if mid * mid <= n {
            lo = mid;
        } else {
            hi = mid;
        }
    }
    let r: u128 = if lo * lo == n {
        lo
    } else {
        hi
    };
    proof {
        assert(hi == lo + 1);
        if lo * lo != n {
            assert(r - 1 == lo);
        } else if lo > 0 {
            let l = lo as int;
            assert((l - 1) * (l - 1) < l * l) by (nonlinear_arith)
                requires
                    l > 0,
            ;
        }
        lemma_ceil_sqrt_unique(n as int, r as int);
        if r == 0 {
            assert(r * r == 0);
        }
    }
    r
}

proof fn lemma_scaled_len(x: int, y: int, m: int, l: int)
    requires
        l > 0,
        m >= 0,
        len_sq(x, y) <= l * l,
    ensures
        len_sq(tdiv(x * m, l), tdiv(y * m, l)) <= m * m,
        abs(tdiv(x * m, l)) <= m,
        abs(tdiv(y * m, l)) <= m,
{
    let qx = abs(tdiv(x * m, l));
    let qy = abs(tdiv(y * m, l));
    lemma_tdiv(x * m, l);
    lemma_tdiv(y * m, l);
    let ax = abs(x);
    let ay = abs(y);
    assert(abs(x * m) == ax * m) by (nonlinear_arith)
        requires
            m >= 0,
            ax == abs(x),
    ;
    assert(abs(y * m) == ay * m) by (nonlinear_arith)
        requires
            m >= 0,
            ay == abs(y),
    ;
    assert(qx * qx * (l * l) <= ax * ax * (m * m)) by (nonlinear_arith)
        requires
            qx >= 0,
            l > 0,
            qx * l <= ax * m,
    ;
    assert(qy * qy * (l * l) <= ay * ay * (m * m)) by (nonlinear_arith)
        requires
            qy >= 0,
            l > 0,
            qy * l <= ay * m,
    ;
    assert(ax * ax + ay * ay == x * x + y * y) by (nonlinear_arith)
        requires
            ax == abs(x),
            ay == abs(y),
    ;
    assert(qx * qx + qy * qy <= m * m) by (nonlinear_arith)
        requires
            l > 0,
            m >= 0,
            qx * qx * (l * l) <= ax * ax * (m * m),
            qy * qy * (l * l) <= ay * ay * (m * m),
            ax * ax + ay * ay <= l * l,
    ;
    assert(qx * qx == tdiv(x * m, l) * tdiv(x * m, l)) by (nonlinear_arith)
        requires
            qx == abs(tdiv(x * m, l)),
    ;
    assert(qy * qy == tdiv(y * m, l) * tdiv(y * m, l)) by (nonlinear_arith)
        requires
            qy == abs(tdiv(y * m, l)),
    ;
    assert(qx <= m && qy <= m) by (nonlinear_arith)
        requires
            qx >= 0,
            qy >= 0,
            m >= 0,
            qx * qx + qy * qy <= m * m,
    ;
}

proof fn lemma_len_sq_bound(x: int, y: int, b: int)
    requires
        abs(x) <= b,
        abs(y) <= b,
    ensures
        0 <= x * x <= b * b,
        0 <= y * y <= b * b,
        0 <= len_sq(x, y) <= b * b + b * b,
{
    assert(0 <= x * x <= b * b) by (nonlinear_arith)
        requires
            abs(x) <= b,
    ;
    assert(0 <= y * y <= b * b) by (nonlinear_arith)
        requires
            abs(y) <= b,
    ;
}

proof fn lemma_short_components(x: int, y: int, m: int)
    requires
        m >= 0,
        len_sq(x, y) <= m * m,
    ensures
        abs(x) <= m,
        abs(y) <= m,
{
    assert(abs(x) <= m && abs(y) <= m) by (nonlinear_arith)
        requires
            m >= 0,
            x * x + y * y <= m * m,
    ;
}

/// `v` rescaled to length `m` (the zero vector stays zero); the result is
/// never longer than `m`.
pub fn scale_to_exec(v: Vec2, m: i64) -> (r: Vec2)
    requires
        abs(v.x as int) <= WIDE_MAX,
        abs(v.y as int) <= WIDE_MAX,
        0 <= m <= LEN_MAX,
    ensures
        (r.x as int, r.y as int) == scale_to(v.x as int, v.y as int, m as int),
        len_sq(r.x as int, r.y as int) <= m * m,
        abs(r.x as int) <= m,
        abs(r.y as int) <= m,
{
    let x = v.x as i128;
    let y = v.y as i128;
    proof {
        lemma_len_sq_bound(x as int, y as int, WIDE_MAX as int);
    }
    let n: i128 = x * x + y * y;
    if n == 0 {
        return Vec2 { x: 0, y: 0 };
    }
    let l = ceil_sqrt_exec(n as u128) as i128;
    proof {
        assert(l > 0);
        lemma_scaled_len(x as int, y as int, m as int, l as int);
        assert(abs(x * m) <= WIDE_MAX * LEN_MAX) by (nonlinear_arith)
            requires
                abs(x as int) <= WIDE_MAX,
                0 <= m <= LEN_MAX,
        ;
        assert(abs(y * m) <= WIDE_MAX * LEN_MAX) by (nonlinear_arith)
            requires
                abs(y as int) <= WIDE_MAX,
                0 <= m <= LEN_MAX,
        ;
    }
    let rx = div_toward_zero(x * (m as i128), l);
    let ry = div_toward_zero(y * (m as i128), l);
    Vec2 { x: rx as i64, y: ry as i64 }
}

/// `v` shortened to length `m` when it is longer, and kept otherwise.
pub fn clamp_length_max(v: Vec2, m: i64) -> (r: Vec2)
    requires
        abs(v.x as int) <= WIDE_MAX,
        abs(v.y as int) <= WIDE_MAX,
        0 <= m <= LEN_MAX,
    ensures
        (r.x as int, r.y as int) == clamp_len(v.x as int, v.y as int, m as int),
        len_sq(r.x as int, r.y as int) <= m * m,
        abs(r.x as int) <= m,
        abs(r.y as int) <= m,
{
    let x = v.x as i128;
    let y = v.y as i128;
    proof {
        lemma_len_sq_bound(x as int, y as int, WIDE_MAX as int);
        assert(0 <= m * m <= LEN_MAX * LEN_MAX) by (nonlinear_arith)
            requires
                0 <= m <= LEN_MAX,
        ;
    }
    let mm = (m as i128) * (m as i128);
    if x * x + y * y <= mm {
        proof {
            lemma_short_components(v.x as int, v.y as int, m as int);
        }
        v
    } else {
        scale_to_exec(v, m)
    }
}

/// Every natural number has a rounded-up square root.
pub proof fn lemma_ceil_sqrt_exists(n: int)
    requires
        n >= 0,
    ensures
        is_ceil_sqrt(n, ceil_sqrt(n)),
    decreases n,
{
    if n == 0 {
        assert(is_ceil_sqrt(0, 0));
    } else {
        lemma_ceil_sqrt_exists(n - 1);
        let r = ceil_sqrt(n - 1);
        if r * r >= n {
            assert(r != 0);
            assert(is_ceil_sqrt(n, r));
        } else {
            assert((r + 1) * (r + 1) == r * r + 2 * r + 1) by (nonlinear_arith);
            assert(is_ceil_sqrt(n, r + 1));
        }
    }
}

/// A clamped vector is never longer than the bound.
pub proof fn lemma_clamp_len_bound(x: int, y: int, m: int)
    requires
        m >= 0,
    ensures
        len_sq(clamp_len(x, y, m).0, clamp_len(x, y, m).1) <= m * m,
{
    if len_sq(x, y) > m * m {
        let n = len_sq(x, y);
        assert(n >= 0) by (nonlinear_arith)
            requires
                n == x * x + y * y,
        ;
        lemma_ceil_sqrt_exists(n);
        let l = ceil_sqrt(n);
        assert(m * m >= 0) by (nonlinear_arith);
        assert(l != 0);
        lemma_scaled_len(x, y, m, l);
    }
}

} // verus!
