//! Barriers: immutable line segments bounding the play field and the pen,
//! and the closed-segment projection that barrier avoidance is built on.

use vstd::prelude::*;
use vstd::arithmetic::div_mod::lemma_div_basics;
use crate::fixed::{POSITION_LIMIT, tdiv, tdiv128};
use crate::fixed::{lemma_mul_fits, lemma_tdiv_bound, lemma_tdiv_exact};
use crate::vec2::{add_v, dot_v, in_world, len2_v, sub_v, Vec2, V2};
use crate::vec2::lemma_len2_nonneg;

verus! {

/// An impassable line segment between two fixed endpoints.
#[derive(Clone, Copy, PartialEq, Eq, Structural)]
pub struct Barrier {
    pub vertex_a: Vec2,
    pub vertex_b: Vec2,
}

/// A barrier's endpoints stay within the world bounds.
pub open spec fn barrier_wf(b: Barrier) -> bool {
    in_world(b.vertex_a@) && in_world(b.vertex_b@)
}

/// Closest point of the closed segment `[a, b]` to `p`: the scalar
/// projection of `p - a` onto `b - a` is clamped to the segment and the
/// segment is interpolated there, rounding toward `a`. A degenerate
/// segment (`a == b`) projects everything to `a`.
pub open spec fn projected_point_v(p: V2, a: V2, b: V2) -> V2 {
    let d = sub_v(b, a);
    let l2 = len2_v(d);
    if l2 == 0 {
        a
    } else {
        let t0 = dot_v(sub_v(p, a), d);
        let t = if t0 < 0 {
            0
        } else if t0 > l2 {
            l2
        } else {
            t0
        };
        add_v(a, V2 { x: tdiv(d.x * t, l2), y: tdiv(d.y * t, l2) })
    }
}

/// A point at an endpoint projects to that endpoint, and a point whose
/// scalar projection falls at or beyond an endpoint is clamped to it.
pub proof fn lemma_projection_endpoints(p: V2, a: V2, b: V2)
    ensures
        p == a ==> projected_point_v(p, a, b) == a,
        p == b ==> projected_point_v(p, a, b) == b,
        dot_v(sub_v(p, a), sub_v(b, a)) <= 0 ==> projected_point_v(p, a, b) == a,
        dot_v(sub_v(p, a), sub_v(b, a)) >= len2_v(sub_v(b, a)) ==> projected_point_v(p, a, b)
            == b,
{
    let d = sub_v(b, a);
    let l2 = len2_v(d);
    lemma_len2_nonneg(d);
    if l2 == 0 {
        assert(d.x == 0 && d.y == 0) by (nonlinear_arith)
            requires
                d.x * d.x + d.y * d.y == 0;
        assert(a == b);
    } else {
        lemma_div_basics(l2);
        let t0 = dot_v(sub_v(p, a), d);
        if p == a {
            assert(t0 == 0) by (nonlinear_arith)
                requires
                    t0 == (p.x - a.x) * d.x + (p.y - a.y) * d.y,
                    p.x == a.x,
                    p.y == a.y;
        }
        if t0 <= 0 {
            assert(tdiv(d.x * 0, l2) == 0 && tdiv(d.y * 0, l2) == 0);
        }
        if p == b {
            assert(sub_v(p, a) == d);
            assert(t0 == l2) by (nonlinear_arith)
                requires
                    t0 == (p.x - a.x) * d.x + (p.y - a.y) * d.y,
                    l2 == d.x * d.x + d.y * d.y,
                    p.x - a.x == d.x,
                    p.y - a.y == d.y;
        }
        if t0 >= l2 {
            lemma_tdiv_exact(d.x, l2);
            lemma_tdiv_exact(d.y, l2);
        }
    }
}

impl Barrier {
    pub fn new(vertex_a: Vec2, vertex_b: Vec2) -> (b: Barrier)
        ensures
            b.vertex_a == vertex_a,
            b.vertex_b == vertex_b,
    {
        Barrier { vertex_a, vertex_b }
    }

    /// The closest point on this barrier to `point`.
    pub fn projected_point(&self, point: Vec2) -> (r: Vec2)
        requires
            barrier_wf(*self),
            in_world(point@),
        ensures
            r@ == projected_point_v(point@, self.vertex_a@, self.vertex_b@),
            -3 * (POSITION_LIMIT as int) <= r@.x <= 3 * (POSITION_LIMIT as int),
            -3 * (POSITION_LIMIT as int) <= r@.y <= 3 * (POSITION_LIMIT as int),
    {
        let d = self.vertex_b.minus(&self.vertex_a);
        let l2 = d.length_squared();
        if l2 == 0 {
            self.vertex_a
        } else {
            let pa = point.minus(&self.vertex_a);
            let t0 = pa.dot(&d);
            let t: i128 = if t0 < 0 {
                0
            } else if t0 > l2 {
                l2
            } else {
                t0
            };
            proof {
                let dd = sub_v(self.vertex_b@, self.vertex_a@);
                let p2 = 2 * (POSITION_LIMIT as int);
                lemma_mul_fits(dd.x, dd.x, p2, p2);
                lemma_mul_fits(dd.y, dd.y, p2, p2);
                lemma_mul_fits(dd.x, t as int, p2, 2 * p2 * p2);
                lemma_mul_fits(dd.y, t as int, p2, 2 * p2 * p2);
                lemma_mul_fits(dd.x, t as int, p2, l2 as int);
                lemma_mul_fits(dd.y, t as int, p2, l2 as int);
                lemma_tdiv_bound(dd.x * (t as int), l2 as int, p2);
                lemma_tdiv_bound(dd.y * (t as int), l2 as int, p2);
            }
            let qx = tdiv128((d.x as i128) * t, l2);
            let qy = tdiv128((d.y as i128) * t, l2);
            self.vertex_a.plus(&Vec2 { x: qx as i64, y: qy as i64 })
        }
    }
}

} // verus!
