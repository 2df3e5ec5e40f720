//! The floor square root, which every magnitude in this crate goes through.
use vstd::prelude::*;

verus! {

/// The largest `m >= 0` with `m * m <= n`; zero for negative `n`.
pub open spec fn floor_sqrt(n: int) -> int
    decreases n,
{
    if n <= 0 {
        0
    } else {
        let r = floor_sqrt(n - 1);
        if (r + 1) * (r + 1) <= n {
            r + 1
        } else {
            r
        }
    }
}

/// `floor_sqrt(n)` brackets `n` between two consecutive squares.
pub proof fn lemma_floor_sqrt(n: int)
    requires
        n >= 0,
    ensures
        floor_sqrt(n) >= 0,
        floor_sqrt(n) * floor_sqrt(n) <= n,
        n < (floor_sqrt(n) + 1) * (floor_sqrt(n) + 1),
    decreases n,
{
    if n > 0 {
        lemma_floor_sqrt(n - 1);
        let r = floor_sqrt(n - 1);
        if (r + 1) * (r + 1) <= n {
            assert(n < (r + 2) * (r + 2)) by (nonlinear_arith)
                requires
                    n - 1 < (r + 1) * (r + 1),
                    r >= 0,
            ;
        }
    }
}

/// Any `m >= 0` that brackets `n` between `m * m` and `(m + 1) * (m + 1)` is its floor square root.
pub proof fn lemma_floor_sqrt_unique(n: int, m: int)
    requires
        m >= 0,
        m * m <= n,
        n < (m + 1) * (m + 1),
    ensures
        floor_sqrt(n) == m,
{
    lemma_floor_sqrt(n);
    let r = floor_sqrt(n);
    if m < r {
        assert((m + 1) * (m + 1) <= r * r) by (nonlinear_arith)
            requires
                0 <= m + 1 <= r,
        ;
    } else if r < m {
        assert((r + 1) * (r + 1) <= m * m) by (nonlinear_arith)
            requires
                0 <= r + 1 <= m,
        ;
    }
}

/// A floor square root is below `c` exactly when `n` is below `c * c`.
pub proof fn lemma_floor_sqrt_lt(n: int, c: int)
    requires
        n >= 0,
        c >= 0,
    ensures
        (floor_sqrt(n) < c) == (n < c * c),
{
    lemma_floor_sqrt(n);
    let r = floor_sqrt(n);
    if r < c {
        assert(n < c * c) by (nonlinear_arith)
            requires
                n < (r + 1) * (r + 1),
                0 <= r + 1 <= c,
        ;
    } else {
        assert(c * c <= n) by (nonlinear_arith)
            requires
                r * r <= n,
                0 <= c <= r,
        ;
    }
}

/// The floor square root of `n`, computed by bisection.
pub fn isqrt(n: u128) -> (r: u64)
    ensures
        r == floor_sqrt(n as int),
{
    let mut lo: u128 = 0;
    let mut hi: u128 = 0x1_0000_0000_0000_0000;
    assert(n < hi * hi) by (nonlinear_arith)
        requires
            hi == 0x1_0000_0000_0000_0000,
            n <= u128::MAX,
    ;
    while hi - lo > 1
        invariant
            lo < hi <= 0x1_0000_0000_0000_0000,
            lo * lo <= n,
            n < hi * hi,
        decreases hi - lo,
    {
        let mid: u128 = lo + (hi - lo) / 2;
        assert(mid * mid <= 0x1_0000_0000_0000_0000 * 0x1_0000_0000_0000_0000 - 1) by (nonlinear_arith)
            requires
                mid < 0x1_0000_0000_0000_0000,
        ;
        if mid * mid <= n {
            lo = mid;
        } else {
            hi = mid;
        }
    }
    proof {
        lemma_floor_sqrt_unique(n as int, lo as int);
    }
    lo as u64
}

/// The smallest `m >= 0` with `n <= m * m`.
pub open spec fn ceil_sqrt(n: int) -> int {
    if n <= 0 {
        0
    } else if floor_sqrt(n) * floor_sqrt(n) == n {
        floor_sqrt(n)
    } else {
        floor_sqrt(n) + 1
    }
}

/// `sqrt(num / div) - r`, rounded away from zero: down where the value is
/// negative (`num < r * r * div`), up elsewhere. Its sign is therefore the
/// sign of the exact value, and it is off by less than one.
pub open spec fn rounded_shell(num: int, div: int, r: int) -> int {
    if r > 0 && num < r * r * div {
        floor_sqrt(num / div) - r
    } else {
        ceil_sqrt((num + div - 1) / div) - r
    }
}

/// Comparing a quotient rounded down, or rounded up, with an integer `k`
/// is comparing `num` with `k * div`.
pub proof fn lemma_div_compare(num: int, div: int, k: int)
    requires
        num >= 0,
        div > 0,
    ensures
        (k <= num / div) == (k * div <= num),
        ((num + div - 1) / div <= k) == (num <= k * div),
        num / div >= 0,
        (num + div - 1) / div >= 0,
{
    let (q, m) = (num / div, num % div);
    vstd::arithmetic::div_mod::lemma_fundamental_div_mod(num, div);
    vstd::arithmetic::div_mod::lemma_mod_pos_bound(num, div);
    assert(q >= 0 && (k <= q) == (k * div <= num)) by (nonlinear_arith)
        requires
            num == div * q + m,
            0 <= m < div,
            num >= 0,
    ;
    let (c, n) = ((num + div - 1) / div, (num + div - 1) % div);
    vstd::arithmetic::div_mod::lemma_fundamental_div_mod(num + div - 1, div);
    vstd::arithmetic::div_mod::lemma_mod_pos_bound(num + div - 1, div);
    assert(c >= 0 && (c <= k) == (num <= k * div)) by (nonlinear_arith)
        requires
            num + div - 1 == div * c + n,
            0 <= n < div,
            num >= 0,
    ;
}

/// `ceil_sqrt(n)` brackets `n` from above.
pub proof fn lemma_ceil_sqrt(n: int)
    requires
        n >= 0,
    ensures
        ceil_sqrt(n) >= 0,
        n <= ceil_sqrt(n) * ceil_sqrt(n),
        ceil_sqrt(n) == 0 || (ceil_sqrt(n) - 1) * (ceil_sqrt(n) - 1) < n,
        (ceil_sqrt(n) <= 0) == (n == 0),
{
    lemma_floor_sqrt(n);
    let f = floor_sqrt(n);
    if n > 0 && f * f == n && f > 0 {
        assert((f - 1) * (f - 1) < f * f) by (nonlinear_arith)
            requires
                f > 0,
        ;
    }
    if n > 0 && f == 0 {
        assert(f * f != n) by (nonlinear_arith)
            requires
                f == 0,
                n > 0,
        ;
    }
}

/// `ceil_sqrt(n)` is at most `k` exactly when `n` is at most `k * k`.
pub proof fn lemma_ceil_sqrt_le(n: int, k: int)
    requires
        n >= 0,
        k >= 0,
    ensures
        (ceil_sqrt(n) <= k) == (n <= k * k),
{
    lemma_ceil_sqrt(n);
    let c = ceil_sqrt(n);
    if c <= k {
        assert(c * c <= k * k) by (nonlinear_arith)
            requires
                0 <= c <= k,
        ;
    } else {
        assert(k * k < n) by (nonlinear_arith)
            requires
                0 <= k <= c - 1,
                (c - 1) * (c - 1) < n,
        ;
    }
}

/// The sign of `rounded_shell` is the sign of `sqrt(num / div) - r`, and the
/// rounded value `d` is within one of it: `e = r + d` brackets
/// `sqrt(num / div)` from below inside and from above outside.
pub proof fn lemma_rounded_shell(num: int, div: int, r: int)
    requires
        num >= 0,
        div > 0,
    ensures
        (rounded_shell(num, div, r) < 0) == (r > 0 && num < r * r * div),
        (rounded_shell(num, div, r) == 0) == (r >= 0 && num == r * r * div),
        (rounded_shell(num, div, r) > 0) == (r < 0 || num > r * r * div),
        ({
            let e = rounded_shell(num, div, r) + r;
            &&& e >= 0
            &&& r > 0 && num < r * r * div ==> e * e * div <= num < (e + 1) * (e + 1) * div
            &&& !(r > 0 && num < r * r * div) ==> num <= e * e * div && (e == 0 || (e - 1) * (e
                - 1) * div < num)
        }),
{
    let (q, c) = (num / div, (num + div - 1) / div);
    lemma_div_compare(num, div, 0);
    lemma_floor_sqrt(q);
    lemma_ceil_sqrt(c);
    if r > 0 && num < r * r * div {
        let e = floor_sqrt(q);
        lemma_div_compare(num, div, e * e);
        lemma_div_compare(num, div, (e + 1) * (e + 1));
        lemma_div_compare(num, div, r * r);
        lemma_floor_sqrt_lt(q, r);
        assert(e * e * div == (e * e) * div && (e + 1) * (e + 1) * div == ((e + 1) * (e + 1))
            * div && r * r * div == (r * r) * div) by (nonlinear_arith);
    } else {
        let e = ceil_sqrt(c);
        lemma_div_compare(num, div, e * e);
        if e > 0 {
            lemma_div_compare(num, div, (e - 1) * (e - 1));
            assert((e - 1) * (e - 1) * div == ((e - 1) * (e - 1)) * div) by (nonlinear_arith);
        }
        assert(e * e * div == (e * e) * div && r * r * div == (r * r) * div) by (nonlinear_arith);
        if r >= 0 {
            lemma_div_compare(num, div, r * r);
            lemma_ceil_sqrt_le(c, r);
            if r > 0 {
                lemma_ceil_sqrt_le(c, r - 1);
                lemma_div_compare(num, div, (r - 1) * (r - 1));
                assert((r - 1) * (r - 1) * div == ((r - 1) * (r - 1)) * div) by (nonlinear_arith);
                assert((r - 1) * (r - 1) * div < r * r * div) by (nonlinear_arith)
                    requires
                        r > 0,
                        div > 0,
                ;
            }
        }
    }
}

/// Bound on each argument of `hypot2` and `hypot3`.
pub const SPAN_MAX: i64 = 4_294_967_296;

/// `floor_sqrt(n)` stays below `c` when `n` is below `c * c`.
proof fn lemma_root_below(n: int, c: int)
    requires
        0 <= n < c * c,
        c >= 0,
    ensures
        0 <= floor_sqrt(n) < c,
{
    lemma_floor_sqrt(n);
    lemma_floor_sqrt_lt(n, c);
}

/// The square of `a`, widened so that it cannot overflow.
fn square(a: i64) -> (r: i128)
    requires
        -SPAN_MAX <= a <= SPAN_MAX,
    ensures
        r == a * a,
        0 <= r <= 0x1_0000_0000_0000_0000,
{
    proof {
        assert(0 <= a * a <= 0x1_0000_0000_0000_0000) by (nonlinear_arith)
            requires
                -0x1_0000_0000 <= a <= 0x1_0000_0000,
        ;
    }
    (a as i128) * (a as i128)
}

/// The floor of the Euclidean norm of `(a, b)`.
pub fn hypot2(a: i64, b: i64) -> (r: i64)
    requires
        -SPAN_MAX <= a <= SPAN_MAX,
        -SPAN_MAX <= b <= SPAN_MAX,
    ensures
        r == floor_sqrt(a * a + b * b),
        0 <= r < 0x4_0000_0000,
{
    let n: i128 = square(a) + square(b);
    proof {
        lemma_root_below(n as int, 0x4_0000_0000);
    }
    isqrt(n as u128) as i64
}

/// The floor of the Euclidean norm of `(a, b, c)`.
pub fn hypot3(a: i64, b: i64, c: i64) -> (r: i64)
    requires
        -SPAN_MAX <= a <= SPAN_MAX,
        -SPAN_MAX <= b <= SPAN_MAX,
        -SPAN_MAX <= c <= SPAN_MAX,
    ensures
        r == floor_sqrt(a * a + b * b + c * c),
        0 <= r < 0x4_0000_0000,
{
    let n: i128 = square(a) + square(b) + square(c);
    proof {
        lemma_root_below(n as int, 0x4_0000_0000);
    }
    isqrt(n as u128) as i64
}

/// The absolute value of `x`.
pub open spec fn abs_of(x: int) -> int {
    if x < 0 {
        -x
    } else {
        x
    }
}

/// The positive part of `x`: `x` when positive, else zero.
pub open spec fn pos(x: int) -> int {
    if x > 0 {
        x
    } else {
        0
    }
}

/// The absolute value of `x`.
pub fn abs_i64(x: i64) -> (r: i64)
    requires
        x > i64::MIN,
    ensures
        r == abs_of(x as int),
{
    if x < 0 {
        -x
    } else {
        x
    }
}

/// `x` divided by `k`, rounded towards negative infinity.
pub fn floor_div(x: i64, k: i64) -> (r: i64)
    requires
        k > 0,
    ensures
        r == x / k,
{
    if x >= 0 {
        ((x as u64) / (k as u64)) as i64
    } else {
        let y: u64 = (-(x + 1)) as u64;
        let q: u64 = y / (k as u64);
        proof {
            let (yi, ki, qi) = (y as int, k as int, q as int);
            let rem = yi % ki;
            vstd::arithmetic::div_mod::lemma_fundamental_div_mod(yi, ki);
            vstd::arithmetic::div_mod::lemma_mod_pos_bound(yi, ki);
            assert(x == (-qi - 1) * ki + (ki - rem - 1)) by (nonlinear_arith)
                requires
                    yi == ki * qi + rem,
                    x == -yi - 1,
            ;
            vstd::arithmetic::div_mod::lemma_fundamental_div_mod_converse(
                x as int,
                ki,
                -qi - 1,
                ki - rem - 1,
            );
        }
        -(q as i64) - 1
    }
}

/// `rounded_shell` stays within `b` of `-r` when `num <= b * b * div`.
pub proof fn lemma_rounded_shell_bound(num: int, div: int, r: int, b: int)
    requires
        num >= 0,
        div > 0,
        b >= 0,
        num <= b * b * div,
    ensures
        0 <= rounded_shell(num, div, r) + r <= b,
{
    lemma_rounded_shell(num, div, r);
    let e = rounded_shell(num, div, r) + r;
    if r > 0 && num < r * r * div {
        assert(e <= b) by (nonlinear_arith)
            requires
                e >= 0,
                b >= 0,
                div > 0,
                e * e * div <= num,
                num <= b * b * div,
        ;
    } else if e > 0 {
        assert(e <= b) by (nonlinear_arith)
            requires
                e > 0,
                b >= 0,
                div > 0,
                (e - 1) * (e - 1) * div < num,
                num <= b * b * div,
        ;
    }
}

/// `rounded_shell(num, div, r)`: `sqrt(num / div) - r` rounded away from zero.
pub fn shell_dist(num: i128, div: i128, r: i64) -> (d: i64)
    requires
        1 <= div <= 0x4000_0000_0000_0000,
        0 <= num <= 0x1_0000_0000_0000_0000 * div,
        -0x4000_0000 <= r <= 0x4000_0000,
    ensures
        d == rounded_shell(num as int, div as int, r as int),
        0 <= d + r <= 0x1_0000_0000,
{
    proof {
        lemma_rounded_shell_bound(num as int, div as int, r as int, 0x1_0000_0000);
        assert(0 <= num <= 0x1_0000_0000_0000_0000 * 0x4000_0000_0000_0000) by (nonlinear_arith)
            requires
                1 <= div <= 0x4000_0000_0000_0000,
                0 <= num <= 0x1_0000_0000_0000_0000 * div,
        ;
        assert(0 <= (r as int) * (r as int) * div <= 0x1000_0000_0000_0000 * 0x4000_0000_0000_0000)
            by (nonlinear_arith)
            requires
                1 <= div <= 0x4000_0000_0000_0000,
                -0x4000_0000 <= r <= 0x4000_0000,
        ;
        lemma_div_compare(num as int, div as int, 0x1_0000_0000_0000_0000);
    }
    let rr: i128 = square(r);
    if r > 0 && num < rr * div {
        let q: u128 = num as u128 / div as u128;
        isqrt(q) as i64 - r
    } else {
        let c: u128 = (num + div - 1) as u128 / div as u128;
        let f: u64 = isqrt(c);
        proof {
            lemma_floor_sqrt(c as int);
            lemma_floor_sqrt_lt(c as int, 0x1_0000_0001);
        }
        let e: u64 = if c == 0 || (f as u128) * (f as u128) == c {
            f
        } else {
            f + 1
        };
        e as i64 - r
    }
}

} // verus!
