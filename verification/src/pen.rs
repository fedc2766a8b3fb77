//! The pen: an oriented rectangular target region. A rotation is carried
//! as a fixed-point cosine/sine pair; containment maps a point into the
//! pen's local frame and compares strictly against the half extents, so
//! points exactly on the boundary are not contained.

use vstd::prelude::*;
use vstd::math::abs;
use crate::fixed::{POSITION_LIMIT, RANGE_LIMIT, SCALE, tdiv128};
use crate::fixed::{lemma_mul_fits, lemma_tdiv_bound, lemma_tdiv_exact};
use crate::vec2::{in_world, rot_wf, rotate_into_v, sub_v, Rot, Vec2, V2};

verus! {

/// The oriented rectangular win-condition region.
#[derive(Clone, Copy, PartialEq, Eq, Structural)]
pub struct Pen {
    pub centre: Vec2,
    pub width: i64,
    pub height: i64,
    pub rotation: Rot,
}

/// A pen sits inside the world with nonnegative, bounded extents.
pub open spec fn pen_wf(p: Pen) -> bool {
    &&& in_world(p.centre@)
    &&& 0 <= p.width <= RANGE_LIMIT as int
    &&& 0 <= p.height <= RANGE_LIMIT as int
    &&& rot_wf(p.rotation)
}

/// A position is contained when both of its local coordinates, doubled,
/// are strictly within the corresponding extent.
pub open spec fn pen_contains(p: Pen, pos: V2) -> bool {
    let local = rotate_into_v(sub_v(pos, p.centre@), p.rotation);
    2 * abs(local.x) < p.width && 2 * abs(local.y) < p.height
}

impl Pen {
    pub fn new(centre: Vec2, width: i64, height: i64, rotation: Rot) -> (p: Pen)
        requires
            in_world(centre@),
            0 <= width <= RANGE_LIMIT,
            0 <= height <= RANGE_LIMIT,
            rot_wf(rotation),
        ensures
            p == (Pen { centre, width, height, rotation }),
            pen_wf(p),
    {
        Pen { centre, width, height, rotation }
    }

    /// Whether `position` lies strictly inside this pen.
    pub fn contains(&self, position: Vec2) -> (c: bool)
        requires
            pen_wf(*self),
            in_world(position@),
        ensures
            c == pen_contains(*self, position@),
    {
        let d = position.minus(&self.centre);
        let s: i128 = SCALE as i128;
        proof {
            let dd = sub_v(position@, self.centre@);
            let p2 = 2 * (POSITION_LIMIT as int);
            lemma_mul_fits(dd.x, self.rotation.cos as int, p2, SCALE as int);
            lemma_mul_fits(dd.y, self.rotation.sin as int, p2, SCALE as int);
            lemma_mul_fits(dd.y, self.rotation.cos as int, p2, SCALE as int);
            lemma_mul_fits(dd.x, self.rotation.sin as int, p2, SCALE as int);
            lemma_tdiv_bound(
                dd.x * (self.rotation.cos as int) + dd.y * (self.rotation.sin as int),
                SCALE as int,
                2 * p2,
            );
            lemma_tdiv_bound(
                dd.y * (self.rotation.cos as int) - dd.x * (self.rotation.sin as int),
                SCALE as int,
                2 * p2,
            );
        }
        let lx = tdiv128(
            (d.x as i128) * (self.rotation.cos as i128) + (d.y as i128)
                * (self.rotation.sin as i128),
            s,
        );
        let ly = tdiv128(
            (d.y as i128) * (self.rotation.cos as i128) - (d.x as i128)
                * (self.rotation.sin as i128),
            s,
        );
        let ax: i128 = if lx < 0 {
            -lx
        } else {
            lx
        };
        let ay: i128 = if ly < 0 {
            -ly
        } else {
            ly
        };
        2 * ax < self.width as i128 && 2 * ay < self.height as i128
    }
}

/// With the identity rotation the pen is an axis-aligned box: a point is
/// contained exactly when each centre offset, doubled, is strictly within
/// the corresponding extent.
pub proof fn lemma_axis_aligned_contains(p: Pen, pos: V2)
    requires
        p.rotation.cos == SCALE,
        p.rotation.sin == 0,
    ensures
        pen_contains(p, pos) <==> (2 * abs(pos.x - p.centre@.x) < p.width && 2 * abs(
            pos.y - p.centre@.y,
        ) < p.height),
{
    let d = sub_v(pos, p.centre@);
    assert(d.y * 0 == 0 && d.x * 0 == 0) by (nonlinear_arith);
    lemma_tdiv_exact(d.x, SCALE as int);
    lemma_tdiv_exact(d.y, SCALE as int);
}

} // verus!
