//! Fixed-point numbers: an `i64` holding a multiple of `1 / SCALE`.
use vstd::prelude::*;

verus! {

/// The number of units in one: a value `v` stands for the real `v / SCALE`.
pub const SCALE: i64 = 65536;

/// `SCALE * SCALE`: one, in the units of an exact product of two values.
pub const SCALE_SQ: i128 = 0x1_0000_0000;

/// The largest magnitude that a fixed-point quantity of the library may have.
pub const LIMIT: i64 = 0x100_0000_0000;

/// Whether `v` lies within the range that the library's quantities keep to.
pub open spec fn fits(v: int) -> bool {
    -LIMIT <= v <= LIMIT
}

/// The product of two fixed-point values, rounded down to the grid.
pub open spec fn fx_mul(a: int, b: int) -> int {
    (a * b) / (SCALE as int)
}

/// The quotient of two fixed-point values (`b > 0`), rounded down to the grid.
pub open spec fn fx_div(a: int, b: int) -> int {
    (a * SCALE) / b
}

/// The integer square root of `n`, defined by counting up.
pub open spec fn sqrt_floor(n: int) -> int
    decreases n,
{
    if n <= 0 {
        0
    } else {
        let r = sqrt_floor(n - 1);
        if (r + 1) * (r + 1) <= n {
            r + 1
        } else {
            r
        }
    }
}

/// The square root of a fixed-point value, rounded down to the grid.
pub open spec fn fx_sqrt(a: int) -> int {
    sqrt_floor(a * SCALE)
}

/// `sqrt_floor(n)` is the one `r >= 0` with `r * r <= n < (r + 1) * (r + 1)`.
pub proof fn lemma_sqrt_floor(n: int)
    requires
        n >= 0,
    ensures
        sqrt_floor(n) >= 0,
        sqrt_floor(n) * sqrt_floor(n) <= n < (sqrt_floor(n) + 1) * (sqrt_floor(n) + 1),
    decreases n,
{
    if n > 0 {
        lemma_sqrt_floor(n - 1);
        let r = sqrt_floor(n - 1);
        if (r + 1) * (r + 1) <= n {
            assert((r + 1) * (r + 1) <= n < (r + 2) * (r + 2)) by (nonlinear_arith)
                requires
                    r * r <= n - 1 < (r + 1) * (r + 1),
                    (r + 1) * (r + 1) <= n,
                    r >= 0,
            ;
        }
    }
}

/// Any `r >= 0` with `r * r <= n < (r + 1) * (r + 1)` is `sqrt_floor(n)`.
pub proof fn lemma_sqrt_floor_unique(n: int, r: int)
    requires
        r >= 0,
        r * r <= n < (r + 1) * (r + 1),
    ensures
        r == sqrt_floor(n),
{
    lemma_sqrt_floor(n);
    let s = sqrt_floor(n);
    if r < s {
        assert((r + 1) * (r + 1) <= s * s) by (nonlinear_arith)
            requires
                0 <= r < s,
        ;
    } else if s < r {
        assert((s + 1) * (s + 1) <= r * r) by (nonlinear_arith)
            requires
                0 <= s < r,
        ;
    }
}

/// `|a * b| <= ma * mb` where `|a| <= ma` and `|b| <= mb`.
pub proof fn lemma_mul_bound(a: int, b: int, ma: int, mb: int)
    requires
        -ma <= a <= ma,
        -mb <= b <= mb,
    ensures
        -(ma * mb) <= a * b <= ma * mb,
{
    assert(-(ma * mb) <= a * b <= ma * mb) by (nonlinear_arith)
        requires
            -ma <= a <= ma,
            -mb <= b <= mb,
    ;
}

/// Dividing by `d > 0` keeps a bound `|a| <= m * d` as `|a / d| <= m`.
pub proof fn lemma_div_bound(a: int, d: int, m: int)
    requires
        d > 0,
        -(m * d) <= a <= m * d,
    ensures
        -m <= a / d <= m,
{
    vstd::arithmetic::div_mod::lemma_fundamental_div_mod(a, d);
    let q = a / d;
    let r = a % d;
    assert(-m <= q <= m) by (nonlinear_arith)
        requires
            a == d * q + r,
            0 <= r < d,
            -(m * d) <= a <= m * d,
            d > 0,
    ;
}

/// `a / b` rounded towards minus infinity (Euclidean division for `b > 0`).
pub fn div_floor(a: i128, b: i128) -> (r: i128)
    requires
        b > 0,
        a > i128::MIN,
    ensures
        r == a / b,
{
    if a >= 0 {
        let q = (a as u128) / (b as u128);
        proof {
            vstd::arithmetic::div_mod::lemma_div_pos_is_pos(a as int, b as int);
        }
        q as i128
    } else {
        let na = (-a) as u128;
        let q = (na + (b as u128) - 1) / (b as u128);
        proof {
            let ai = a as int;
            let bi = b as int;
            let qi = q as int;
            vstd::arithmetic::div_mod::lemma_fundamental_div_mod(ai, bi);
            vstd::arithmetic::div_mod::lemma_fundamental_div_mod(na + bi - 1, bi);
            let m = (na + bi - 1) % bi;
            assert(0 <= m < bi);
            assert(na + bi - 1 == bi * qi + m);
            assert(-ai + bi - 1 == bi * qi + m);
            assert(ai == bi * (-qi) + (bi - 1 - m)) by (nonlinear_arith)
                requires
                    -ai + bi - 1 == bi * qi + m,
            ;
            vstd::arithmetic::div_mod::lemma_fundamental_div_mod_converse_div(ai, bi, -qi, bi - 1 - m);
            assert(qi <= na) by (nonlinear_arith)
                requires
                    na + bi - 1 == bi * qi + m,
                    0 <= m,
                    bi >= 1,
                    na >= 1,
            ;
        }
        -(q as i128)
    }
}

/// The integer square root: the largest `r` with `r * r <= n`.
pub fn isqrt(n: u128) -> (r: u128)
    ensures
        r == sqrt_floor(n as int),
        r * r <= n < (r + 1) * (r + 1),
        r < 0x1_0000_0000_0000_0000,
{
    let mut lo: u128 = 0;
    let mut hi: u128 = 0x1_0000_0000_0000_0000;
    assert(hi * hi > n) by (nonlinear_arith)
        requires
            hi == 0x1_0000_0000_0000_0000u128,
            n <= u128::MAX,
    ;
    while hi - lo > 1
        invariant
            lo < hi <= 0x1_0000_0000_0000_0000,
            lo * lo <= n < hi * hi,
        decreases hi - lo,
    {
        let mid = lo + (hi - lo) / 2;
        assert(mid * mid < 0x1_0000_0000_0000_0000_0000_0000_0000_0000) by (nonlinear_arith)
            requires
                mid < 0x1_0000_0000_0000_0000,
        ;
        if mid * mid <= n {
            lo = mid;
        } else {
            hi = mid;
        }
    }
    assert(hi == lo + 1);
    proof {
        lemma_sqrt_floor_unique(n as int, lo as int);
    }
    lo
}

/// The fixed-point product `a * b`, rounded down to the grid.
pub fn mul_fx(a: i64, b: i64) -> (r: i64)
    requires
        fits(a as int),
        fits(b as int),
        fits(fx_mul(a as int, b as int)),
    ensures
        r == fx_mul(a as int, b as int),
{
    proof {
        lemma_mul_bound(a as int, b as int, LIMIT as int, LIMIT as int);
    }
    div_floor((a as i128) * (b as i128), SCALE as i128) as i64
}

/// The fixed-point quotient `a / b` for `b > 0`, rounded down to the grid.
pub fn div_fx(a: i64, b: i64) -> (r: i64)
    requires
        fits(a as int),
        0 < b <= LIMIT,
        fits(fx_div(a as int, b as int)),
    ensures
        r == fx_div(a as int, b as int),
{
    div_floor((a as i128) * (SCALE as i128), b as i128) as i64
}

/// The fixed-point square root of `a >= 0`, rounded down to the grid.
pub fn sqrt_fx(a: i64) -> (r: i64)
    requires
        0 <= a <= LIMIT,
    ensures
        r == fx_sqrt(a as int),
        0 <= r <= LIMIT,
{
    assert((a as u128) * 65536 <= 0x100_0000_0000 * 65536) by (nonlinear_arith)
        requires
            0 <= a <= 0x100_0000_0000,
    ;
    let n = (a as u128) * (SCALE as u128);
    let r = isqrt(n);
    assert(n <= 0x100_0000_0000 * 65536) by (nonlinear_arith)
        requires
            n == a * 65536,
            a <= 0x100_0000_0000,
    ;
    assert(r <= LIMIT) by (nonlinear_arith)
        requires
            r * r <= n,
            n <= 0x100_0000_0000 * 65536,
            r >= 0,
    ;
    r as i64
}

/// `v` held between `lo` and `hi`.
pub fn clamp(v: i64, lo: i64, hi: i64) -> (r: i64)
    requires
        lo <= hi,
    ensures
        r == (if v < lo {
            lo
        } else if v > hi {
            hi
        } else {
            v
        }),
{
    if v < lo {
        return lo;
    }
    if v > hi {
        return hi;
    }
    v
}

} // verus!
