//! Fixed-point scalar arithmetic: the scale factor, the world limits, and
//! the two primitive operations every force formula is built from — a
//! division that truncates toward zero and an integer square root.

use vstd::prelude::*;
use vstd::arithmetic::div_mod::{
    lemma_basic_div, lemma_div_basics, lemma_div_by_multiple, lemma_div_is_ordered,
    lemma_div_multiples_vanish_fancy, lemma_div_pos_is_pos,
};
use vstd::arithmetic::mul::lemma_mul_nonnegative;

verus! {

/// Number of fixed-point subunits per world unit: a stored value `v`
/// stands for the real number `v / SCALE`.
pub const SCALE: i64 = 1000;

/// Largest coordinate magnitude the world admits; positions are kept
/// inside `[-POSITION_LIMIT, POSITION_LIMIT]` on both axes.
pub const POSITION_LIMIT: i64 = 1_000_000_000_000;

/// Largest admissible speed limit of an agent.
pub const SPEED_LIMIT: i64 = 1_000_000_000;

/// Largest admissible strength of a force parameter.
pub const STRENGTH_LIMIT: i64 = 1_000_000;

/// Largest admissible cutoff radius of a force parameter.
pub const RANGE_LIMIT: i64 = 1_000_000_000_000;

/// Largest admissible tick duration.
pub const DT_LIMIT: i64 = 10_000;

/// Drag coefficient applied to momentum each tick (0.8 in world units).
pub const DAMPING: i64 = 800;

/// Largest tick duration for which one discrete damping step cannot
/// overshoot past zero: `SCALE * SCALE / DAMPING`.
pub const DAMPING_STABLE_DT: i64 = 1250;

/// Momenta whose length is at most this threshold (0.01 in world units)
/// produce no displacement within a tick.
pub const DEAD_ZONE: i64 = 10;

/// Bound on the magnitude of any single accumulated force contribution.
pub const FORCE_LIMIT: i64 = 1_000_000_000_000;

/// Bound on the number of contributions one accumulator list may hold.
pub const MAX_INFLUENCES: usize = 100_000;

/// Division truncating toward zero, for positive divisors. This is the
/// rounding that all executable divisions in the crate perform.
pub open spec fn tdiv(a: int, d: int) -> int {
    if a >= 0 {
        a / d
    } else {
        -((-a) / d)
    }
}

/// Floor of the square root of `n` (0 for negative `n`).
pub open spec fn sqrt_floor(n: int) -> int
    decreases n,
{
    if n <= 0 {
        0
    } else {
        let r = sqrt_floor(n - 1);
        if (r + 1) * (r + 1) <= n {
            r + 1
        } else {
            r
        }
    }
}

/// Ceiling of the square root of `n`.
pub open spec fn sqrt_ceil(n: int) -> int {
    if sqrt_floor(n) * sqrt_floor(n) == n {
        sqrt_floor(n)
    } else {
        sqrt_floor(n) + 1
    }
}

/// `sqrt_floor(n)` is the unique `r >= 0` with `r * r <= n < (r+1) * (r+1)`.
pub proof fn lemma_sqrt_floor_bounds(n: int)
    requires
        n >= 0,
    ensures
        0 <= sqrt_floor(n),
        sqrt_floor(n) * sqrt_floor(n) <= n,
        n < (sqrt_floor(n) + 1) * (sqrt_floor(n) + 1),
    decreases n,
{
    if n == 0 {
    } else {
        lemma_sqrt_floor_bounds(n - 1);
        let r = sqrt_floor(n - 1);
        if (r + 1) * (r + 1) <= n {
            assert(n < (r + 2) * (r + 2)) by (nonlinear_arith)
                requires
                    r >= 0,
                    n - 1 < (r + 1) * (r + 1);
        }
    }
}

/// Any `r >= 0` with `r * r <= n < (r+1) * (r+1)` equals `sqrt_floor(n)`.
pub proof fn lemma_sqrt_floor_unique(n: int, r: int)
    requires
        n >= 0,
        r >= 0,
        r * r <= n,
        n < (r + 1) * (r + 1),
    ensures
        r == sqrt_floor(n),
{
    let s = sqrt_floor(n);
    lemma_sqrt_floor_bounds(n);
    if r < s {
        assert((r + 1) * (r + 1) <= s * s) by (nonlinear_arith)
            requires
                0 <= r + 1 <= s;
    }
    if s < r {
        assert((s + 1) * (s + 1) <= r * r) by (nonlinear_arith)
            requires
                0 <= s + 1 <= r;
    }
}

/// `sqrt_ceil(n)` is at least the square root: `n <= sqrt_ceil(n)^2`.
pub proof fn lemma_sqrt_ceil_bounds(n: int)
    requires
        n >= 0,
    ensures
        0 <= sqrt_ceil(n),
        n <= sqrt_ceil(n) * sqrt_ceil(n),
        sqrt_floor(n) <= sqrt_ceil(n),
{
    lemma_sqrt_floor_bounds(n);
}

/// Truncating division of a negated dividend negates the quotient.
pub proof fn lemma_tdiv_neg(a: int, d: int)
    requires
        d >= 1,
    ensures
        tdiv(-a, d) == -tdiv(a, d),
{
    if a == 0 {
        lemma_div_basics(d);
    }
}

/// A dividend bounded by `b * d` in magnitude yields a quotient bounded
/// by `b` in magnitude.
pub proof fn lemma_tdiv_bound(a: int, d: int, b: int)
    requires
        d >= 1,
        b >= 0,
        -(b * d) <= a <= b * d,
    ensures
        -b <= tdiv(a, d) <= b,
{
    if a >= 0 {
        lemma_div_pos_is_pos(a, d);
        lemma_div_is_ordered(a, b * d, d);
        lemma_div_by_multiple(b, d);
    } else {
        lemma_div_pos_is_pos(-a, d);
        lemma_div_is_ordered(-a, b * d, d);
        lemma_div_by_multiple(b, d);
    }
}

/// Dividing an exact multiple recovers the factor.
pub proof fn lemma_tdiv_exact(x: int, d: int)
    requires
        d >= 1,
    ensures
        tdiv(x * d, d) == x,
{
    if x >= 0 {
        lemma_mul_nonnegative(x, d);
        lemma_div_by_multiple(x, d);
    } else {
        assert(x * d <= 0 && -(x * d) == (-x) * d) by (nonlinear_arith)
            requires
                x < 0,
                d >= 1;
        lemma_div_by_multiple(-x, d);
        if x * d == 0 {
            lemma_div_basics(d);
        }
    }
}

/// Division that rounds away from zero, for positive divisors. The
/// damping term of the integrator uses it, so a nonzero momentum is never
/// rounded into a fixed point of decay.
pub open spec fn tdiv_up(a: int, d: int) -> int {
    if a >= 0 {
        (a + d - 1) / d
    } else {
        -(((-a) + d - 1) / d)
    }
}

pub proof fn lemma_tdiv_up_zero(d: int)
    requires
        d >= 1,
    ensures
        tdiv_up(0, d) == 0,
{
    lemma_basic_div(d - 1, d);
}

/// A dividend bounded by `b * d` in magnitude yields an away-rounded
/// quotient bounded by `b` in magnitude.
pub proof fn lemma_tdiv_up_bound(a: int, d: int, b: int)
    requires
        d >= 1,
        b >= 0,
        -(b * d) <= a <= b * d,
    ensures
        -b <= tdiv_up(a, d) <= b,
{
    assert(b * d == d * b) by (nonlinear_arith);
    if a >= 0 {
        lemma_div_pos_is_pos(a + d - 1, d);
        lemma_div_is_ordered(a + d - 1, d * b + (d - 1), d);
        lemma_div_multiples_vanish_fancy(b, d - 1, d);
    } else {
        lemma_div_pos_is_pos((-a) + d - 1, d);
        lemma_div_is_ordered((-a) + d - 1, d * b + (d - 1), d);
        lemma_div_multiples_vanish_fancy(b, d - 1, d);
    }
}

/// A strictly positive dividend yields an away-rounded quotient of at
/// least one.
pub proof fn lemma_tdiv_up_pos(a: int, d: int)
    requires
        d >= 1,
        a >= 1,
    ensures
        tdiv_up(a, d) >= 1,
{
    lemma_div_is_ordered(d, a + d - 1, d);
    lemma_div_basics(d);
}

/// The product of two values is bounded by the product of their bounds.
pub proof fn lemma_mul_fits(a: int, b: int, ba: int, bb: int) by (nonlinear_arith)
    requires
        -ba <= a <= ba,
        -bb <= b <= bb,
        0 <= ba,
        0 <= bb,
    ensures
        -(ba * bb) <= a * b <= ba * bb,
{
}

/// Truncating division, as performed at run time.
pub fn tdiv128(a: i128, d: i128) -> (q: i128)
    requires
        1 <= d,
        a > i128::MIN,
    ensures
        q == tdiv(a as int, d as int),
{
    if a >= 0 {
        let n: u128 = a as u128;
        let q: u128 = n / (d as u128);
        proof {
            lemma_div_pos_is_pos(a as int, d as int);
            lemma_div_le_self(a as int, d as int);
        }
        q as i128
    } else {
        let n: u128 = (-a) as u128;
        let q: u128 = n / (d as u128);
        proof {
            lemma_div_pos_is_pos(n as int, d as int);
            lemma_div_le_self(n as int, d as int);
        }
        -(q as i128)
    }
}

/// Away-from-zero division, as performed at run time.
pub fn tdiv128_up(a: i128, d: i128) -> (q: i128)
    requires
        1 <= d,
        i128::MIN + d < a < i128::MAX - d,
    ensures
        q == tdiv_up(a as int, d as int),
{
    if a >= 0 {
        let n: u128 = (a as u128) + ((d - 1) as u128);
        let q: u128 = n / (d as u128);
        proof {
            lemma_div_pos_is_pos(n as int, d as int);
            lemma_div_le_self(n as int, d as int);
        }
        q as i128
    } else {
        let n: u128 = ((-a) as u128) + ((d - 1) as u128);
        let q: u128 = n / (d as u128);
        proof {
            lemma_div_pos_is_pos(n as int, d as int);
            lemma_div_le_self(n as int, d as int);
        }
        -(q as i128)
    }
}

/// A nonnegative dividend is no smaller than its quotient by `d >= 1`.
proof fn lemma_div_le_self(a: int, d: int)
    requires
        a >= 0,
        d >= 1,
    ensures
        a / d <= a,
{
    vstd::arithmetic::div_mod::lemma_div_is_ordered_by_denominator(a, 1, d);
    lemma_div_basics(a);
}

/// Floor of the square root, computed by bisection.
pub fn isqrt128(n: u128) -> (r: u128)
    ensures
        r == sqrt_floor(n as int),
        r <= 0xFFFF_FFFF_FFFF_FFFF,
{
    let mut lo: u128 = 0;
    let mut hi: u128 = 0xFFFF_FFFF_FFFF_FFFF;
    proof {
        assert(n < (0x1_0000_0000_0000_0000 as int) * (0x1_0000_0000_0000_0000 as int));
    }
    while lo < hi
        invariant
            lo <= hi,
            hi <= 0xFFFF_FFFF_FFFF_FFFF,
            lo * lo <= n,
            n < (hi + 1) * (hi + 1),
        decreases hi - lo,
    {
        let mid: u128 = lo + (hi - lo + 1) / 2;
        assert(lo < mid <= hi) by (nonlinear_arith)
            requires
                lo < hi,
                mid == lo + (hi - lo + 1) / 2;
        assert(mid * mid <= u128::MAX) by (nonlinear_arith)
            requires
                mid <= 0xFFFF_FFFF_FFFF_FFFFu128;
        if mid * mid <= n {
            lo = mid;
        } else {
            hi = mid - 1;
        }
    }
    proof {
        lemma_sqrt_floor_unique(n as int, lo as int);
    }
    lo
}

} // verus!
