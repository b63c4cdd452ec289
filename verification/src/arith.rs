//! Integer helpers: magnitudes, floor division, and the floor of a square root.

use vstd::prelude::*;
use vstd::arithmetic::div_mod::{lemma_fundamental_div_mod, lemma_fundamental_div_mod_converse};

verus! {

/// The absolute value of an integer.
pub open spec fn abs(a: int) -> int {
    if a < 0 {
        -a
    } else {
        a
    }
}

/// The sign of an integer: `-1`, `0` or `1`.
pub open spec fn signum(a: int) -> int {
    if a > 0 {
        1
    } else if a < 0 {
        -1
    } else {
        0
    }
}

/// Whether `r` is the floor of the square root of `n`.
pub open spec fn is_sqrt_floor(n: nat, r: nat) -> bool {
    r * r <= n < (r + 1) * (r + 1)
}

/// The floor of the square root of `n`: the one `r` with `r * r <= n < (r + 1) * (r + 1)`.
pub open spec fn sqrt_floor(n: nat) -> nat {
    choose|r: nat| is_sqrt_floor(n, r)
}

/// Squaring is strictly monotone on the naturals.
pub proof fn lemma_square_le(a: nat, b: nat)
    by (nonlinear_arith)
    requires
        a <= b,
    ensures
        a * a <= b * b,
{
}

/// Whatever lies between two consecutive squares as `sqrt_floor` demands is `sqrt_floor`.
pub proof fn lemma_sqrt_floor_unique(n: nat, r: nat)
    requires
        is_sqrt_floor(n, r),
    ensures
        sqrt_floor(n) == r,
{
    let c = sqrt_floor(n);
    assert(is_sqrt_floor(n, c));
    if c < r {
        lemma_square_le(c + 1, r);
    } else if c > r {
        lemma_square_le(r + 1, c);
    }
}

/// `sqrt_floor(n)` squared is at most `n`, and the next square is above `n`.
pub proof fn lemma_sqrt_floor_bounds(n: nat)
    ensures
        is_sqrt_floor(n, sqrt_floor(n)),
    decreases n,
{
    if n == 0 {
        assert(is_sqrt_floor(n, 0)) by (nonlinear_arith)
            requires
                n == 0,
        ;
    } else {
        lemma_sqrt_floor_bounds((n - 1) as nat);
        let p = sqrt_floor((n - 1) as nat);
        if (p + 1) * (p + 1) <= n {
            assert(n < (p + 2) * (p + 2)) by (nonlinear_arith)
                requires
                    n - 1 < (p + 1) * (p + 1),
            ;
            assert(is_sqrt_floor(n, p + 1));
        } else {
            assert(is_sqrt_floor(n, p));
        }
    }
}

/// The magnitude of a 32-bit integer, which always fits in 64 bits.
pub fn magnitude(a: i32) -> (m: i64)
    ensures
        m == abs(a as int),
{
    let w: i64 = a as i64;
    if w < 0 {
        -w
    } else {
        w
    }
}

/// The quotient of `a` by a positive `b`, rounded down.
pub fn floor_div(a: i64, b: i64) -> (q: i64)
    requires
        b > 0,
    ensures
        q == a / b,
{
    if a >= 0 {
        a / b
    } else {
        let m: i64 = -(a + 1);
        let k: i64 = m / b;
        proof {
            lemma_fundamental_div_mod(m as int, b as int);
            assert(a == (-k - 1) * b + (b - 1 - (m % b))) by (nonlinear_arith)
                requires
                    m == b * k + (m % b),
                    a == -m - 1,
            ;
            lemma_fundamental_div_mod_converse(a as int, b as int, -k - 1, b - 1 - (m % b));
        }
        -k - 1
    }
}

/// The remainder of `a` by a positive `b`, between `0` and `b - 1`.
pub fn floor_mod(a: i64, b: i64) -> (r: i64)
    requires
        b > 0,
    ensures
        r == a % b,
        0 <= r < b,
{
    if a >= 0 {
        a % b
    } else {
        let m: i64 = -(a + 1);
        let s: i64 = m % b;
        proof {
            lemma_fundamental_div_mod(m as int, b as int);
            assert(a == (-(m / b) - 1) * b + (b - 1 - s)) by (nonlinear_arith)
                requires
                    m == b * (m / b) + s,
                    a == -m - 1,
            ;
            lemma_fundamental_div_mod_converse(a as int, b as int, -(m / b) - 1, b - 1 - s);
        }
        b - 1 - s
    }
}

/// The floor of the square root of `n`, found by bisection.
pub fn floor_sqrt(n: u128) -> (r: u128)
    ensures
        r == sqrt_floor(n as nat),
        is_sqrt_floor(n as nat, r as nat),
{
    let mut lo: u128 = 0;
    let mut hi: u128 = 0x1_0000_0000_0000_0000;
    assert(n < hi * hi) by (nonlinear_arith)
        requires
            hi == 0x1_0000_0000_0000_0000,
            n <= u128::MAX,
    ;
    while hi - lo > 1
        invariant
            lo < hi <= 0x1_0000_0000_0000_0000,
            lo * lo <= n < hi * hi,
        decreases hi - lo,
    {
        let mid: u128 = lo + (hi - lo) / 2;
        assert(mid * mid < 0x1_0000_0000_0000_0000 * 0x1_0000_0000_0000_0000) by (nonlinear_arith)
            requires
                0 <= mid < 0x1_0000_0000_0000_0000,
        ;
        if mid * mid <= n {
            lo = mid;
        } else {
            hi = mid;
        }
    }
    proof {
        lemma_sqrt_floor_unique(n as nat, lo as nat);
    }
    lo
}

} // verus!
