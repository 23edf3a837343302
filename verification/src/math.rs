//! Integer square roots, clamping and interpolation over the fixed-point
//! scalars used by the rest of the crate.

use vstd::prelude::*;
use vstd::arithmetic::div_mod::{
    lemma_div_is_ordered, lemma_div_multiples_vanish, lemma_div_pos_is_pos,
    lemma_fundamental_div_mod,
};

verus! {

/// Largest input `isqrt_u64` accepts; keeps the binary search bounds square
/// inside `u64`.
pub const ISQRT_INPUT_MAX: u64 = 4_000_000_000_000_000_000;

/// Floor of the square root of `n`.
pub fn isqrt_u64(n: u64) -> (r: u64)
    requires
        n <= ISQRT_INPUT_MAX,
    ensures
        r * r <= n,
        n < (r + 1) * (r + 1),
        r <= 2_000_000_000,
        r == sqrt_val(n as int),
{
    let mut lo: u64 = 0;
    let mut hi: u64 = 2_000_000_001;
    proof {
        assert((2_000_000_001int * 2_000_000_001int) > ISQRT_INPUT_MAX as int) by (nonlinear_arith);
    }
    while lo + 1 < hi
        invariant
            lo < hi,
            hi <= 2_000_000_001,
            lo * lo <= n,
            n < hi * hi,
        decreases hi - lo,
    {
        let mid = lo + (hi - lo) / 2;
        proof {
            assert(mid * mid <= 2_000_000_000int * 2_000_000_000int) by (nonlinear_arith)
                requires mid <= 2_000_000_000int;
        }
        if mid * mid <= n {
            lo = mid;
        } else {
            hi = mid;
        }
    }
    proof {
        lemma_sqrt_val(n as int, lo as int);
    }
    lo
}

/// Ceiling of the square root of `n`.
pub fn isqrt_ceil_u64(n: u64) -> (r: u64)
    requires
        n <= ISQRT_INPUT_MAX,
    ensures
        n <= r * r,
        r == 0 ==> n == 0,
        r >= 1 ==> (r - 1) * (r - 1) < n,
        r <= 2_000_000_001,
        r == sqrt_ceil_val(n as int),
{
    let f = isqrt_u64(n);
    if f * f == n {
        proof {
            assert(f >= 1 ==> (f - 1) * (f - 1) < f * f) by (nonlinear_arith);
        }
        f
    } else {
        f + 1
    }
}

/// `r` is the floor of the square root of `n`.
pub open spec fn is_sqrt_floor(n: int, r: int) -> bool {
    &&& 0 <= r
    &&& r * r <= n
    &&& n < (r + 1) * (r + 1)
}

/// The floor of the square root of a non-negative `n`.
pub open spec fn sqrt_val(n: int) -> int {
    choose|r: int| is_sqrt_floor(n, r)
}

/// The floor square root is unique, so any witness pins `sqrt_val` down.
pub proof fn lemma_sqrt_val(n: int, r: int)
    requires
        is_sqrt_floor(n, r),
    ensures
        sqrt_val(n) == r,
{
    let c = choose|x: int| is_sqrt_floor(n, x);
    assert(is_sqrt_floor(n, c));
    if c < r {
        assert((c + 1) * (c + 1) <= r * r) by (nonlinear_arith)
            requires 0 <= c, c < r;
    } else if c > r {
        assert((r + 1) * (r + 1) <= c * c) by (nonlinear_arith)
            requires 0 <= r, r < c;
    }
}

/// Ceiling counterpart of `sqrt_val`.
pub open spec fn sqrt_ceil_val(n: int) -> int {
    if sqrt_val(n) * sqrt_val(n) == n {
        sqrt_val(n)
    } else {
        sqrt_val(n) + 1
    }
}

/// `t/m` of the way from `lo` to `hi`, floored.
pub open spec fn lerp_spec(lo: int, hi: int, t: int, m: int) -> int {
    lo + t * (hi - lo) / m
}

/// The floored interpolation stays inside `[lo, hi]` and is exact at both
/// ends.
pub proof fn lemma_lerp_bounds(lo: int, hi: int, t: int, m: int)
    requires
        lo <= hi,
        0 <= t <= m,
        1 <= m,
    ensures
        lo <= lerp_spec(lo, hi, t, m) <= hi,
        t == 0 ==> lerp_spec(lo, hi, t, m) == lo,
        t == m ==> lerp_spec(lo, hi, t, m) == hi,
{
    let d = hi - lo;
    assert(0 <= t * d <= m * d) by (nonlinear_arith)
        requires 0 <= t <= m, 0 <= d;
    lemma_div_pos_is_pos(t * d, m);
    lemma_div_is_ordered(t * d, m * d, m);
    lemma_div_multiples_vanish(d, m);
    assert(m * d == d * m) by (nonlinear_arith);
}

/// Scaling a vector of magnitudes `(ax, ay)` by `n` over a bound `l` on its
/// norm keeps the scaled norm within `n`.
pub proof fn lemma_clamp_norm(ax: int, ay: int, n: int, l: int, qx: int, qy: int)
    requires
        0 <= ax,
        0 <= ay,
        0 <= n,
        1 <= l,
        ax * ax + ay * ay <= l * l,
        qx == (ax * n) / l,
        qy == (ay * n) / l,
    ensures
        0 <= qx <= n,
        0 <= qy <= n,
        qx * qx + qy * qy <= n * n,
{
    assert(0 <= ax * n && 0 <= ay * n) by (nonlinear_arith)
        requires 0 <= ax, 0 <= ay, 0 <= n;
    lemma_div_pos_is_pos(ax * n, l);
    lemma_div_pos_is_pos(ay * n, l);
    lemma_fundamental_div_mod(ax * n, l);
    lemma_fundamental_div_mod(ay * n, l);
    assert(l * qx <= ax * n);
    assert(l * qy <= ay * n);
    assert((qx * qx) * (l * l) <= (ax * n) * (ax * n)) by (nonlinear_arith)
        requires 0 <= qx, 1 <= l, l * qx <= ax * n;
    assert((qy * qy) * (l * l) <= (ay * n) * (ay * n)) by (nonlinear_arith)
        requires 0 <= qy, 1 <= l, l * qy <= ay * n;
    assert((ax * n) * (ax * n) + (ay * n) * (ay * n) <= (n * n) * (l * l)) by (nonlinear_arith)
        requires ax * ax + ay * ay <= l * l, 0 <= n;
    assert((qx * qx + qy * qy) * (l * l) <= (n * n) * (l * l)) by (nonlinear_arith)
        requires
            (qx * qx) * (l * l) <= (ax * n) * (ax * n),
            (qy * qy) * (l * l) <= (ay * n) * (ay * n),
            (ax * n) * (ax * n) + (ay * n) * (ay * n) <= (n * n) * (l * l);
    assert(qx * qx + qy * qy <= n * n) by (nonlinear_arith)
        requires (qx * qx + qy * qy) * (l * l) <= (n * n) * (l * l), 1 <= l;
    assert(ax <= l && ay <= l) by (nonlinear_arith)
        requires 0 <= ax, 0 <= ay, 1 <= l, ax * ax + ay * ay <= l * l;
    assert(ax * n <= l * n && ay * n <= l * n) by (nonlinear_arith)
        requires ax <= l, ay <= l, 0 <= n;
    lemma_div_is_ordered(ax * n, l * n, l);
    lemma_div_is_ordered(ay * n, l * n, l);
    lemma_div_multiples_vanish(n, l);
}

/// `x` forced into the closed interval `[lo, hi]`.
pub open spec fn clamp_spec(x: int, lo: int, hi: int) -> int {
    if x < lo {
        lo
    } else if x > hi {
        hi
    } else {
        x
    }
}

/// Clamp of `x` to `[lo, hi]`.
pub fn clamp_i64(x: i64, lo: i64, hi: i64) -> (r: i64)
    requires
        lo <= hi,
    ensures
        r == clamp_spec(x as int, lo as int, hi as int),
{
    if x < lo {
        lo
    } else if x > hi {
        hi
    } else {
        x
    }
}

} // verus!
