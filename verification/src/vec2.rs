//! Two-dimensional fixed-point vectors: the executable `Vec2` type, its
//! mathematical counterpart `V2`, and the length clamp that keeps every
//! momentum below its speed limit.

use vstd::prelude::*;
use vstd::arithmetic::div_mod::{lemma_div_pos_is_pos, lemma_fundamental_div_mod};
use vstd::arithmetic::mul::{
    lemma_mul_inequality, lemma_mul_inequality_converse, lemma_mul_nonnegative,
};
use crate::fixed::{POSITION_LIMIT, SCALE, sqrt_ceil, sqrt_floor, tdiv, tdiv128, isqrt128};
use crate::fixed::{
    lemma_mul_fits, lemma_sqrt_ceil_bounds, lemma_sqrt_floor_bounds, lemma_tdiv_bound,
};

verus! {

/// Mathematical value of a `Vec2`.
pub ghost struct V2 {
    pub x: int,
    pub y: int,
}

/// A two-dimensional vector in fixed-point world coordinates.
#[derive(Clone, Copy, PartialEq, Eq, Structural)]
pub struct Vec2 {
    pub x: i64,
    pub y: i64,
}

impl View for Vec2 {
    type V = V2;

    open spec fn view(&self) -> V2 {
        V2 { x: self.x as int, y: self.y as int }
    }
}

pub open spec fn add_v(a: V2, b: V2) -> V2 {
    V2 { x: a.x + b.x, y: a.y + b.y }
}

pub open spec fn sub_v(a: V2, b: V2) -> V2 {
    V2 { x: a.x - b.x, y: a.y - b.y }
}

pub open spec fn neg_v(a: V2) -> V2 {
    V2 { x: -a.x, y: -a.y }
}

pub open spec fn zero_v() -> V2 {
    V2 { x: 0, y: 0 }
}

/// Squared length of a vector.
pub open spec fn len2_v(a: V2) -> int {
    a.x * a.x + a.y * a.y
}

pub open spec fn dot_v(a: V2, b: V2) -> int {
    a.x * b.x + a.y * b.y
}

/// A rotation in fixed point: the cosine and sine of the angle, each
/// scaled by `SCALE`.
#[derive(Clone, Copy, PartialEq, Eq, Structural)]
pub struct Rot {
    pub cos: i64,
    pub sin: i64,
}

/// A well-formed rotation sits within the unit circle: each component is
/// within one world unit and the pair together never exceeds unit
/// length, so rotating by it can only shrink a vector, never scale it up.
pub open spec fn rot_wf(r: Rot) -> bool {
    &&& -(SCALE as int) <= r.cos <= SCALE as int
    &&& -(SCALE as int) <= r.sin <= SCALE as int
    &&& r.cos * r.cos + r.sin * r.sin <= (SCALE as int) * (SCALE as int)
}

impl Rot {
    pub fn new(cos: i64, sin: i64) -> (r: Rot)
        requires
            -SCALE <= cos <= SCALE,
            -SCALE <= sin <= SCALE,
            cos * cos + sin * sin <= SCALE * SCALE,
        ensures
            r.cos == cos,
            r.sin == sin,
            rot_wf(r),
    {
        Rot { cos, sin }
    }

    /// The rotation by angle zero.
    pub fn identity() -> (r: Rot)
        ensures
            r.cos == SCALE,
            r.sin == 0,
            rot_wf(r),
    {
        Rot { cos: SCALE, sin: 0 }
    }
}

/// Coordinates of `v` in the frame rotated by the angle of `r`, that is,
/// `v` rotated by the negated angle.
pub open spec fn rotate_into_v(v: V2, r: Rot) -> V2 {
    V2 {
        x: tdiv(v.x * r.cos + v.y * r.sin, SCALE as int),
        y: tdiv(v.y * r.cos - v.x * r.sin, SCALE as int),
    }
}

/// `v` rotated by the angle of `r`.
pub open spec fn rotate_by_v(v: V2, r: Rot) -> V2 {
    V2 {
        x: tdiv(v.x * r.cos - v.y * r.sin, SCALE as int),
        y: tdiv(v.x * r.sin + v.y * r.cos, SCALE as int),
    }
}

/// Whether a point lies within the world bounds on both axes.
pub open spec fn in_world(v: V2) -> bool {
    &&& -(POSITION_LIMIT as int) <= v.x <= POSITION_LIMIT as int
    &&& -(POSITION_LIMIT as int) <= v.y <= POSITION_LIMIT as int
}

/// Length of a vector, rounded down, with a minimum-distance floor of one
/// subunit so that it can always stand as a divisor.
pub open spec fn len_floor(a: V2) -> int {
    if sqrt_floor(len2_v(a)) < 1 {
        1
    } else {
        sqrt_floor(len2_v(a))
    }
}

/// Length of a vector, rounded up, floored at one subunit. Dividing by
/// it can only shrink: `len2_v(a) <= len_ceil(a) * len_ceil(a)`, so it is
/// the divisor of every normalizing division in the crate.
pub open spec fn len_ceil(a: V2) -> int {
    if sqrt_ceil(len2_v(a)) < 1 {
        1
    } else {
        sqrt_ceil(len2_v(a))
    }
}

/// The rounded-up length bounds the vector from above.
pub proof fn lemma_len_ceil_bounds(a: V2)
    ensures
        1 <= len_ceil(a),
        len2_v(a) <= len_ceil(a) * len_ceil(a),
{
    lemma_len2_nonneg(a);
    lemma_sqrt_ceil_bounds(len2_v(a));
    lemma_sqrt_floor_bounds(len2_v(a));
}

/// A vector of length at most `max` is kept; a longer one is scaled down
/// to length at most `max`, rounding each component toward zero.
pub open spec fn clamp_len_v(v: V2, max: int) -> V2 {
    if len2_v(v) <= max * max {
        v
    } else {
        let l = sqrt_ceil(len2_v(v));
        V2 { x: tdiv(v.x * max, l), y: tdiv(v.y * max, l) }
    }
}

/// A vector within length `c` has both components within `c`.
pub proof fn lemma_len2_component_bound(v: V2, c: int)
    requires
        len2_v(v) <= c * c,
        c >= 0,
    ensures
        -c <= v.x <= c,
        -c <= v.y <= c,
{
    assert(-c <= v.x <= c && -c <= v.y <= c) by (nonlinear_arith)
        requires
            v.x * v.x + v.y * v.y <= c * c,
            c >= 0;
}

/// A squared length is never negative.
pub proof fn lemma_len2_nonneg(a: V2) by (nonlinear_arith)
    ensures
        len2_v(a) >= a.x * a.x >= 0,
        len2_v(a) >= a.y * a.y >= 0,
{
}

impl Vec2 {
    pub fn new(x: i64, y: i64) -> (v: Vec2)
        ensures
            v@ == (V2 { x: x as int, y: y as int }),
    {
        Vec2 { x, y }
    }

    pub fn zero() -> (v: Vec2)
        ensures
            v@ == zero_v(),
    {
        Vec2 { x: 0, y: 0 }
    }

    pub fn plus(&self, other: &Vec2) -> (v: Vec2)
        requires
            i64::MIN <= self.x + other.x <= i64::MAX,
            i64::MIN <= self.y + other.y <= i64::MAX,
        ensures
            v@ == add_v(self@, other@),
    {
        Vec2 { x: self.x + other.x, y: self.y + other.y }
    }

    pub fn minus(&self, other: &Vec2) -> (v: Vec2)
        requires
            i64::MIN <= self.x - other.x <= i64::MAX,
            i64::MIN <= self.y - other.y <= i64::MAX,
        ensures
            v@ == sub_v(self@, other@),
    {
        Vec2 { x: self.x - other.x, y: self.y - other.y }
    }

    /// Squared length, computed without loss in a wider type.
    pub fn length_squared(&self) -> (n: i128)
        requires
            self.x > i64::MIN,
            self.y > i64::MIN,
        ensures
            n == len2_v(self@),
            n >= 0,
    {
        let x: i128 = self.x as i128;
        let y: i128 = self.y as i128;
        proof {
            lemma_mul_fits(x as int, x as int, i64::MAX as int, i64::MAX as int);
            lemma_mul_fits(y as int, y as int, i64::MAX as int, i64::MAX as int);
            lemma_len2_nonneg(self@);
        }
        x * x + y * y
    }

    /// Dot product, computed without loss in a wider type.
    pub fn dot(&self, other: &Vec2) -> (n: i128)
        requires
            self.x > i64::MIN,
            self.y > i64::MIN,
            other.x > i64::MIN,
            other.y > i64::MIN,
        ensures
            n == dot_v(self@, other@),
    {
        proof {
            lemma_mul_fits(self@.x, other@.x, i64::MAX as int, i64::MAX as int);
            lemma_mul_fits(self@.y, other@.y, i64::MAX as int, i64::MAX as int);
        }
        (self.x as i128) * (other.x as i128) + (self.y as i128) * (other.y as i128)
    }

    /// Length rounded down, floored at one subunit.
    pub fn length_floor(&self) -> (l: i128)
        requires
            self.x > i64::MIN,
            self.y > i64::MIN,
        ensures
            l == len_floor(self@),
            1 <= l <= 0x1_0000_0000_0000_0000,
            l * l <= len2_v(self@) || l == 1,
    {
        let n = self.length_squared();
        let r = isqrt128(n as u128);
        proof {
            lemma_sqrt_floor_bounds(n as int);
        }
        if r < 1 {
            1
        } else {
            r as i128
        }
    }

    /// Length rounded up, floored at one subunit.
    pub fn length_ceil(&self) -> (l: i128)
        requires
            self.x > i64::MIN,
            self.y > i64::MIN,
        ensures
            l == len_ceil(self@),
            1 <= l <= 0x1_0000_0000_0000_0001,
            len2_v(self@) <= l * l,
    {
        let n = self.length_squared();
        let r = isqrt128(n as u128);
        proof {
            lemma_sqrt_floor_bounds(n as int);
            lemma_len_ceil_bounds(self@);
        }
        let rc: i128 = if (r as i128) * (r as i128) == n {
            r as i128
        } else {
            (r as i128) + 1
        };
        if rc < 1 {
            1
        } else {
            rc
        }
    }
}

/// Scaling a component and truncating cannot grow its product with the
/// divisor beyond the exact product: `(tdiv(a, l) * l)^2 <= a^2`.
pub proof fn lemma_tdiv_mul_square(a: int, l: int)
    requires
        l >= 1,
    ensures
        tdiv(a, l) * l * (tdiv(a, l) * l) <= a * a,
{
    if a >= 0 {
        let q = a / l;
        lemma_fundamental_div_mod(a, l);
        lemma_div_pos_is_pos(a, l);
        lemma_mul_nonnegative(q, l);
        assert(q * l <= a) by (nonlinear_arith)
            requires
                a == l * q + a % l,
                a % l >= 0;
        lemma_mul_inequality(q * l, a, q * l);
        lemma_mul_inequality(q * l, a, a);
    } else {
        let q = (-a) / l;
        let t = tdiv(a, l);
        lemma_fundamental_div_mod(-a, l);
        lemma_div_pos_is_pos(-a, l);
        lemma_mul_nonnegative(q, l);
        assert(q * l <= -a) by (nonlinear_arith)
            requires
                -a == l * q + (-a) % l,
                (-a) % l >= 0;
        lemma_mul_inequality(q * l, -a, q * l);
        lemma_mul_inequality(q * l, -a, -a);
        assert(t * l * (t * l) == q * l * (q * l) && (-a) * (-a) == a * a) by (nonlinear_arith)
            requires
                t == -q;
    }
}

/// Components divided by `l` and truncated keep a squared-sum bound: if
/// the scaled-back squares sum to at most `b * l^2`, the squares
/// themselves sum to at most `b`. This is the common core of the length
/// clamp, the normalizing divisions and the rotation.
pub proof fn lemma_div_sum_sq(qx: int, qy: int, b: int, l: int)
    requires
        l >= 1,
        qx * l * (qx * l) + qy * l * (qy * l) <= b * (l * l),
    ensures
        qx * qx + qy * qy <= b,
{
    assert(qx * l * (qx * l) == (qx * qx) * (l * l)) by (nonlinear_arith);
    assert(qy * l * (qy * l) == (qy * qy) * (l * l)) by (nonlinear_arith);
    assert((qx * qx + qy * qy) * (l * l) == (qx * qx) * (l * l) + (qy * qy) * (l * l))
        by (nonlinear_arith);
    assert(l * l >= 1) by (nonlinear_arith)
        requires
            l >= 1;
    assert(b * (l * l) == (l * l) * b && (qx * qx + qy * qy) * (l * l) == (l * l) * (qx * qx + qy
        * qy)) by (nonlinear_arith);
    lemma_mul_inequality_converse(qx * qx + qy * qy, b, l * l);
}

/// Core inequality of the clamp: components scaled by `max / l` and
/// truncated have a squared sum within `max * max`.
proof fn lemma_clamp_sq(x: int, y: int, qx: int, qy: int, max: int, l: int)
    requires
        l >= 1,
        max >= 0,
        x * x + y * y <= l * l,
        qx * l * (qx * l) <= (x * max) * (x * max),
        qy * l * (qy * l) <= (y * max) * (y * max),
    ensures
        qx * qx + qy * qy <= max * max,
{
    assert((x * max) * (x * max) == (x * x) * (max * max)) by (nonlinear_arith);
    assert((y * max) * (y * max) == (y * y) * (max * max)) by (nonlinear_arith);
    assert((x * x + y * y) * (max * max) == (x * x) * (max * max) + (y * y) * (max * max))
        by (nonlinear_arith);
    lemma_mul_nonnegative(max, max);
    lemma_mul_inequality(x * x + y * y, l * l, max * max);
    assert((l * l) * (max * max) == (max * max) * (l * l)) by (nonlinear_arith);
    lemma_div_sum_sq(qx, qy, max * max, l);
}

/// The rotated squared length factors exactly: rotation by `(c, s)`
/// scales a squared length by `c^2 + s^2`.
proof fn lemma_rotation_identity(x: int, y: int, c: int, s: int)
    ensures
        (x * c - y * s) * (x * c - y * s) + (x * s + y * c) * (x * s + y * c) == (x * x + y * y) * (
        c * c + s * s),
{
    let u = x * c;
    let w = y * s;
    let p = x * s;
    let q = y * c;
    assert((u - w) * (u - w) == u * u - 2 * (u * w) + w * w) by (nonlinear_arith);
    assert((p + q) * (p + q) == p * p + 2 * (p * q) + q * q) by (nonlinear_arith);
    assert(u * w == p * q) by (nonlinear_arith)
        requires
            u == x * c,
            w == y * s,
            p == x * s,
            q == y * c;
    assert(u * u == (x * x) * (c * c) && w * w == (y * y) * (s * s) && p * p == (x * x) * (s * s)
        && q * q == (y * y) * (c * c)) by (nonlinear_arith)
        requires
            u == x * c,
            w == y * s,
            p == x * s,
            q == y * c;
    assert((x * x + y * y) * (c * c + s * s) == (x * x) * (c * c) + (x * x) * (s * s) + (y * y) * (
    c * c) + (y * y) * (s * s)) by (nonlinear_arith);
}

/// Rotating by a well-formed rotation never grows a vector: truncation
/// only shrinks components, and the rotation itself has at most unit
/// length.
pub proof fn lemma_rotate_by_shrinks(v: V2, r: Rot)
    requires
        rot_wf(r),
    ensures
        len2_v(rotate_by_v(v, r)) <= len2_v(v),
{
    let sc = SCALE as int;
    let a = v.x * r.cos - v.y * r.sin;
    let b = v.x * r.sin + v.y * r.cos;
    lemma_tdiv_mul_square(a, sc);
    lemma_tdiv_mul_square(b, sc);
    lemma_rotation_identity(v.x, v.y, r.cos as int, r.sin as int);
    lemma_len2_nonneg(v);
    lemma_mul_inequality(r.cos * r.cos + r.sin * r.sin, sc * sc, len2_v(v));
    assert(len2_v(v) * (r.cos * r.cos + r.sin * r.sin) == (r.cos * r.cos + r.sin * r.sin) * len2_v(
        v,
    ) && len2_v(v) * (sc * sc) == (sc * sc) * len2_v(v)) by (nonlinear_arith);
    lemma_div_sum_sq(tdiv(a, sc), tdiv(b, sc), len2_v(v), sc);
}

/// The clamped vector never exceeds length `max`.
pub proof fn lemma_clamp_len(v: V2, max: int)
    requires
        max >= 0,
    ensures
        len2_v(clamp_len_v(v, max)) <= max * max,
{
    if len2_v(v) <= max * max {
    } else {
        lemma_len2_nonneg(v);
        let l = sqrt_ceil(len2_v(v));
        lemma_sqrt_ceil_bounds(len2_v(v));
        assert(l >= 1) by (nonlinear_arith)
            requires
                len2_v(v) > max * max,
                max >= 0,
                len2_v(v) <= l * l,
                l >= 0;
        lemma_tdiv_mul_square(v.x * max, l);
        lemma_tdiv_mul_square(v.y * max, l);
        lemma_clamp_sq(v.x, v.y, tdiv(v.x * max, l), tdiv(v.y * max, l), max, l);
    }
}

/// A component of a vector is bounded by any upper bound `l` on the
/// vector's length.
proof fn lemma_component_within(a: int, b: int, l: int) by (nonlinear_arith)
    requires
        l >= 1,
        a * a + b * b <= l * l,
    ensures
        -l <= a <= l,
{
}

/// Executable form of `clamp_len_v`: the vector unchanged when already
/// within `max`, otherwise scaled down to length at most `max`.
pub fn clamp_length(v: Vec2, max: i64) -> (r: Vec2)
    requires
        0 <= max,
        v.x > i64::MIN,
        v.y > i64::MIN,
    ensures
        r@ == clamp_len_v(v@, max as int),
        len2_v(r@) <= max * max,
        len2_v(v@) <= max * max ==> r == v,
{
    proof {
        lemma_clamp_len(v@, max as int);
        lemma_mul_fits(max as int, max as int, i64::MAX as int, i64::MAX as int);
    }
    let n = v.length_squared();
    if n <= (max as i128) * (max as i128) {
        v
    } else {
        let s = isqrt128(n as u128);
        proof {
            lemma_sqrt_floor_bounds(n as int);
            lemma_mul_fits(s as int, s as int, 0x1_0000_0000_0000_0000, 0x1_0000_0000_0000_0000);
        }
        let sf = s as i128;
        let l: i128 = if sf * sf == n {
            sf
        } else {
            sf + 1
        };
        assert(l == sqrt_ceil(len2_v(v@)));
        proof {
            lemma_sqrt_ceil_bounds(n as int);
            assert(l >= 1) by (nonlinear_arith)
                requires
                    n as int > (max as int) * (max as int),
                    max >= 0,
                    n as int <= l * l,
                    l >= 0;
            lemma_component_within(v@.x, v@.y, l as int);
            lemma_component_within(v@.y, v@.x, l as int);
            lemma_mul_fits(v@.x, max as int, i64::MAX as int, i64::MAX as int);
            lemma_mul_fits(v@.y, max as int, i64::MAX as int, i64::MAX as int);
            lemma_mul_fits(v@.x, max as int, l as int, max as int);
            lemma_mul_fits(v@.y, max as int, l as int, max as int);
            lemma_tdiv_bound(v@.x * max, l as int, max as int);
            lemma_tdiv_bound(v@.y * max, l as int, max as int);
        }
        let qx = tdiv128((v.x as i128) * (max as i128), l);
        let qy = tdiv128((v.y as i128) * (max as i128), l);
        Vec2 { x: qx as i64, y: qy as i64 }
    }
}

} // verus!
