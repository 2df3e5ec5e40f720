//! Exact rounding of `h = sqrt((sqrt(s) - c)^2 + y^2)`, the distance from a
//! point to a circle of radius `c` seen in a plane through its axis, where
//! `s` is the point's squared distance from the axis and `y` its height.
//!
//! Every comparison of `h` with an integer is decided by integer
//! arithmetic alone, so `h` is rounded once, never through an already
//! rounded `sqrt(s)`.
use vstd::prelude::*;

verus! {

/// Whether `(sqrt(s) - c)^2 < w`, decided without roots: the inequality
/// is `s + c^2 - w < 2 c sqrt(s)`, and both sides are compared by sign and
/// then by square.
pub open spec fn ring_below(s: int, c: int, w: int) -> bool {
    let a = s + c * c - w;
    if c >= 0 {
        a < 0 || a * a < 4 * c * c * s
    } else {
        a < 0 && a * a > 4 * c * c * s
    }
}

/// Whether `(sqrt(s) - c)^2 <= w`, decided without roots as in `ring_below`.
pub open spec fn ring_within(s: int, c: int, w: int) -> bool {
    let a = s + c * c - w;
    if c >= 0 {
        a <= 0 || a * a <= 4 * c * c * s
    } else {
        a <= 0 && a * a >= 4 * c * c * s
    }
}

/// Whether `h <= m`.
pub open spec fn ring_le(s: int, c: int, y: int, m: int) -> bool {
    m >= 0 && ring_within(s, c, m * m - y * y)
}

/// Whether `h < m`.
pub open spec fn ring_lt(s: int, c: int, y: int, m: int) -> bool {
    m > 0 && ring_below(s, c, m * m - y * y)
}

/// `m` is `h` rounded up: `m - 1 < h <= m`.
pub open spec fn is_ring_ceil(s: int, c: int, y: int, m: int) -> bool {
    ring_le(s, c, y, m) && !ring_le(s, c, y, m - 1)
}

/// `m` is `h` rounded down: `m <= h < m + 1`.
pub open spec fn is_ring_floor(s: int, c: int, y: int, m: int) -> bool {
    m >= 0 && !ring_lt(s, c, y, m) && ring_lt(s, c, y, m + 1)
}

/// `h` rounded up.
pub open spec fn ring_ceil(s: int, c: int, y: int) -> int {
    choose|m: int| is_ring_ceil(s, c, y, m)
}

/// `h` rounded down.
pub open spec fn ring_floor(s: int, c: int, y: int) -> int {
    choose|m: int| is_ring_floor(s, c, y, m)
}

/// The sizes for which `h` is below `2^31` and its tests fit in `i128`.
pub open spec fn ring_bounded(s: int, c: int, y: int) -> bool {
    &&& 0 <= s <= 0x800_0000_0000_0000
    &&& -0x2000_0000 <= c <= 0x2000_0000
    &&& -0x4000_0000 <= y <= 0x4000_0000
}

/// The tests grow weaker as `w` grows, and a non-strict test at `w` gives
/// the strict one at any larger `w2`.
proof fn lemma_within_mono(s: int, c: int, w: int, w2: int)
    requires
        s >= 0,
        w <= w2,
    ensures
        ring_within(s, c, w) ==> ring_within(s, c, w2),
        ring_below(s, c, w) ==> ring_below(s, c, w2),
        ring_within(s, c, w) && w < w2 ==> ring_below(s, c, w2),
{
    let (a, b, k) = (s + c * c - w, s + c * c - w2, 4 * c * c * s);
    assert(k >= 0) by (nonlinear_arith)
        requires
            s >= 0,
            k == 4 * c * c * s,
    ;
    assert(0 <= b <= a ==> b * b <= a * a) by (nonlinear_arith);
    assert(0 <= b < a ==> b * b < a * a) by (nonlinear_arith);
    assert(b <= a <= 0 ==> b * b >= a * a) by (nonlinear_arith);
    assert(b < a <= 0 ==> b * b > a * a) by (nonlinear_arith);
}

/// `ring_le` and `ring_lt` hold from some point on.
pub proof fn lemma_ring_mono(s: int, c: int, y: int, m: int, m2: int)
    requires
        s >= 0,
        m <= m2,
    ensures
        ring_le(s, c, y, m) ==> ring_le(s, c, y, m2),
        ring_lt(s, c, y, m) ==> ring_lt(s, c, y, m2),
        ring_le(s, c, y, m) && m < m2 ==> ring_lt(s, c, y, m2),
{
    if m >= 0 {
        assert(m * m <= m2 * m2 && (m < m2 ==> m * m < m2 * m2)) by (nonlinear_arith)
            requires
                0 <= m <= m2,
        ;
        lemma_within_mono(s, c, m * m - y * y, m2 * m2 - y * y);
    }
}

/// `h` is never below `|y|`: no test holds below zero after subtracting `y^2`.
pub proof fn lemma_within_negative(s: int, c: int, w: int)
    requires
        s >= 0,
        w < 0,
    ensures
        !ring_within(s, c, w),
        !ring_below(s, c, w),
{
    let (a, k) = (s + c * c - w, 4 * c * c * s);
    assert(a > 0 && a * a > k) by (nonlinear_arith)
        requires
            s >= 0,
            w < 0,
            a == s + c * c - w,
            k == 4 * c * c * s,
    {
        assert((s - c * c) * (s - c * c) >= 0);
    }
}

/// Within the bounds, `h < 2^31`.
proof fn lemma_ring_far(s: int, c: int, y: int)
    requires
        ring_bounded(s, c, y),
    ensures
        ring_le(s, c, y, 0x8000_0000),
        ring_lt(s, c, y, 0x8000_0000),
{
    let m: int = 0x8000_0000;
    let a = s + c * c - (m * m - y * y);
    assert(a < 0 && a * a > 4 * c * c * s) by (nonlinear_arith)
        requires
            ring_bounded(s, c, y),
            a == s + c * c - (m * m - y * y),
            m == 0x8000_0000,
    ;
}

proof fn lemma_ceil_exists(s: int, c: int, y: int, lo: int, hi: int)
    requires
        !ring_le(s, c, y, lo),
        ring_le(s, c, y, hi),
        lo < hi,
    ensures
        exists|m: int| is_ring_ceil(s, c, y, m),
    decreases hi - lo,
{
    if ring_le(s, c, y, hi - 1) {
        lemma_ceil_exists(s, c, y, lo, hi - 1);
    } else {
        assert(is_ring_ceil(s, c, y, hi));
    }
}

proof fn lemma_floor_exists(s: int, c: int, y: int, lo: int, hi: int)
    requires
        lo >= 0,
        !ring_lt(s, c, y, lo),
        ring_lt(s, c, y, hi),
        lo < hi,
    ensures
        exists|m: int| is_ring_floor(s, c, y, m),
    decreases hi - lo,
{
    if !ring_lt(s, c, y, hi - 1) {
        assert(is_ring_floor(s, c, y, hi - 1));
    } else {
        lemma_floor_exists(s, c, y, lo, hi - 1);
    }
}

/// Within the bounds `h` has exactly one rounding up and one rounding down.
pub proof fn lemma_ring_round(s: int, c: int, y: int, m: int)
    requires
        ring_bounded(s, c, y),
    ensures
        is_ring_ceil(s, c, y, ring_ceil(s, c, y)),
        is_ring_floor(s, c, y, ring_floor(s, c, y)),
        0 <= ring_floor(s, c, y) <= ring_ceil(s, c, y) <= 0x8000_0000,
        is_ring_ceil(s, c, y, m) ==> m == ring_ceil(s, c, y),
        is_ring_floor(s, c, y, m) ==> m == ring_floor(s, c, y),
{
    lemma_ring_far(s, c, y);
    lemma_ceil_exists(s, c, y, -1, 0x8000_0000);
    lemma_floor_exists(s, c, y, 0, 0x8000_0000);
    let (hc, hf) = (ring_ceil(s, c, y), ring_floor(s, c, y));
    if hc > 0x8000_0000 {
        lemma_ring_mono(s, c, y, 0x8000_0000, hc - 1);
    }
    if hf >= 0x8000_0000 {
        lemma_ring_mono(s, c, y, 0x8000_0000, hf);
    }
    if hf > hc {
        lemma_ring_mono(s, c, y, hc, hf);
    }
    if is_ring_ceil(s, c, y, m) {
        if m < hc {
            lemma_ring_mono(s, c, y, m, hc - 1);
        } else if hc < m {
            lemma_ring_mono(s, c, y, hc, m - 1);
        }
    }
    if is_ring_floor(s, c, y, m) {
        if m < hf {
            lemma_ring_mono(s, c, y, m + 1, hf);
        } else if hf < m {
            lemma_ring_mono(s, c, y, hf + 1, m);
        }
    }
}

/// `ring_le` and `ring_lt` at `m`.
pub fn ring_test(s: i128, c: i64, y: i64, m: i64) -> (r: (bool, bool))
    requires
        ring_bounded(s as int, c as int, y as int),
        m <= 0x8000_0000,
    ensures
        r.0 == ring_le(s as int, c as int, y as int, m as int),
        r.1 == ring_lt(s as int, c as int, y as int, m as int),
{
    if m < 0 {
        return (false, false);
    }
    let (ci, yi, mi) = (c as i128, y as i128, m as i128);
    proof {
        assert(0 <= ci * ci <= 0x400_0000_0000_0000 && 0 <= yi * yi <= 0x1000_0000_0000_0000 && 0
            <= mi * mi <= 0x4000_0000_0000_0000) by (nonlinear_arith)
            requires
                -0x2000_0000 <= ci <= 0x2000_0000,
                -0x4000_0000 <= yi <= 0x4000_0000,
                0 <= mi <= 0x8000_0000,
        ;
    }
    let a = s + ci * ci - (mi * mi - yi * yi);
    proof {
        assert(0 <= a * a <= 0x4000_0000_0000_0000 * 0x4000_0000_0000_0000) by (nonlinear_arith)
            requires
                -0x4000_0000_0000_0000 <= a <= 0x4000_0000_0000_0000,
        ;
        assert(0 <= 4 * (ci * ci) * s <= 0x1000_0000_0000_0000 * 0x800_0000_0000_0000)
            by (nonlinear_arith)
            requires
                0 <= ci * ci <= 0x400_0000_0000_0000,
                0 <= s <= 0x800_0000_0000_0000,
        ;
        assert(4 * ci * ci * s == 4 * (ci * ci) * s) by (nonlinear_arith);
    }
    let a2 = a * a;
    let k = 4 * (ci * ci) * s;
    if c >= 0 {
        (a <= 0 || a2 <= k, m > 0 && (a < 0 || a2 < k))
    } else {
        (a <= 0 && a2 >= k, m > 0 && (a < 0 && a2 > k))
    }
}

/// `h` rounded up, by bisection.
pub fn ring_ceil_exec(s: i128, c: i64, y: i64) -> (m: i64)
    requires
        ring_bounded(s as int, c as int, y as int),
    ensures
        m == ring_ceil(s as int, c as int, y as int),
        0 <= m <= 0x8000_0000,
{
    proof {
        lemma_ring_far(s as int, c as int, y as int);
    }
    let mut lo: i64 = -1;
    let mut hi: i64 = 0x8000_0000;
    while hi - lo > 1
        invariant
            ring_bounded(s as int, c as int, y as int),
            -1 <= lo < hi <= 0x8000_0000,
            !ring_le(s as int, c as int, y as int, lo as int),
            ring_le(s as int, c as int, y as int, hi as int),
        decreases hi - lo,
    {
        let mid = lo + (hi - lo) / 2;
        if ring_test(s, c, y, mid).0 {
            hi = mid;
        } else {
            lo = mid;
        }
    }
    proof {
        lemma_ring_round(s as int, c as int, y as int, hi as int);
    }
    hi
}

/// `h` rounded down, by bisection.
pub fn ring_floor_exec(s: i128, c: i64, y: i64) -> (m: i64)
    requires
        ring_bounded(s as int, c as int, y as int),
    ensures
        m == ring_floor(s as int, c as int, y as int),
        0 <= m <= 0x8000_0000,
{
    proof {
        lemma_ring_far(s as int, c as int, y as int);
    }
    let mut lo: i64 = 0;
    let mut hi: i64 = 0x8000_0000;
    while hi - lo > 1
        invariant
            ring_bounded(s as int, c as int, y as int),
            0 <= lo < hi <= 0x8000_0000,
            !ring_lt(s as int, c as int, y as int, lo as int),
            ring_lt(s as int, c as int, y as int, hi as int),
        decreases hi - lo,
    {
        let mid = lo + (hi - lo) / 2;
        if ring_test(s, c, y, mid).1 {
            hi = mid;
        } else {
            lo = mid;
        }
    }
    proof {
        lemma_ring_round(s as int, c as int, y as int, lo as int);
    }
    lo
}

} // verus!
