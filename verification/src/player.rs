//! The player: a singleton agent with no momentum model. Its motion is
//! set directly from a clamped input intent each tick — the intent is
//! normalized to at most unit length, reinterpreted through the
//! camera-relative facing, scaled by the speed limit and the tick
//! duration, and added to the position. One tick can therefore never
//! displace the player by more than `max_speed * dt`.

use vstd::prelude::*;
use vstd::arithmetic::div_mod::lemma_div_basics;
use vstd::arithmetic::mul::{
    lemma_mul_inequality, lemma_mul_inequality_converse, lemma_mul_nonnegative,
};
use crate::common::MaxSpeed;
use crate::fixed::{DT_LIMIT, SCALE, SPEED_LIMIT, tdiv, tdiv128};
use crate::fixed::{lemma_mul_fits, lemma_tdiv_bound};
use crate::sheep::clip_world;
use crate::vec2::{
    in_world, len_ceil, len2_v, rot_wf, rotate_by_v, sub_v, zero_v, Rot, Vec2, V2,
};
use crate::vec2::{
    lemma_div_sum_sq, lemma_len_ceil_bounds, lemma_len2_component_bound, lemma_rotate_by_shrinks,
    lemma_tdiv_mul_square,
};

verus! {

/// The player-controlled agent.
#[derive(Clone, Copy, PartialEq, Eq, Structural)]
pub struct Player {
    pub position: Vec2,
    pub max_speed: MaxSpeed,
    pub facing: Rot,
}

/// The player sits inside the world with a bounded speed limit.
pub open spec fn player_wf(p: Player) -> bool {
    &&& in_world(p.position@)
    &&& 0 <= p.max_speed.0 <= SPEED_LIMIT as int
    &&& rot_wf(p.facing)
}

impl Player {
    /// A player at `position` with the stock speed limit, facing along
    /// the world axes.
    pub fn new(position: Vec2) -> (p: Player)
        requires
            in_world(position@),
        ensures
            p.position == position,
            p.max_speed.0 == 10_000,
            p.facing.cos == SCALE,
            p.facing.sin == 0,
            player_wf(p),
    {
        Player { position, max_speed: MaxSpeed::new(10_000), facing: Rot::identity() }
    }
}

/// The unit vector (scaled by `SCALE`) in the direction of `v`, or zero
/// for the zero vector. Dividing by the rounded-up length keeps the
/// result at or below unit length.
pub open spec fn normalize_or_zero_v(v: V2) -> V2 {
    if v == zero_v() {
        zero_v()
    } else {
        let l = len_ceil(v);
        V2 { x: tdiv(v.x * (SCALE as int), l), y: tdiv(v.y * (SCALE as int), l) }
    }
}

/// The player's position after one tick of input: the normalized intent,
/// rotated by the facing, scaled by the speed limit over `dt`.
pub open spec fn player_step_v(pos: V2, facing: Rot, ms: int, intent: V2, dt: int) -> V2 {
    let u = rotate_by_v(normalize_or_zero_v(intent), facing);
    V2 {
        x: clip_world(pos.x + tdiv(u.x * ms * dt, (SCALE as int) * (SCALE as int))),
        y: clip_world(pos.y + tdiv(u.y * ms * dt, (SCALE as int) * (SCALE as int))),
    }
}

/// Normalize an intent vector to at most unit length in fixed point.
pub fn normalize_or_zero(v: Vec2) -> (u: Vec2)
    requires
        in_world(v@),
    ensures
        u@ == normalize_or_zero_v(v@),
        -(SCALE as int) <= u@.x <= SCALE as int,
        -(SCALE as int) <= u@.y <= SCALE as int,
        len2_v(u@) <= (SCALE as int) * (SCALE as int),
{
    if v.x == 0 && v.y == 0 {
        let r = Vec2 { x: 0, y: 0 };
        proof {
            assert(r@.x * r@.x + r@.y * r@.y == 0 && (SCALE as int) * (SCALE as int) >= 0)
                by (nonlinear_arith)
                requires
                    r@.x == 0,
                    r@.y == 0;
        }
        r
    } else {
        let l = v.length_ceil();
        proof {
            lemma_len_ceil_bounds(v@);
            lemma_len2_component_bound(v@, l as int);
            lemma_tdiv_bound(v@.x * (SCALE as int), l as int, SCALE as int);
            lemma_tdiv_bound(v@.y * (SCALE as int), l as int, SCALE as int);
            lemma_tdiv_mul_square(v@.x * (SCALE as int), l as int);
            lemma_tdiv_mul_square(v@.y * (SCALE as int), l as int);
            assert((v@.x * (SCALE as int)) * (v@.x * (SCALE as int)) + (v@.y * (SCALE as int)) * (
            v@.y * (SCALE as int)) == (v@.x * v@.x + v@.y * v@.y) * ((SCALE as int) * (
            SCALE as int))) by (nonlinear_arith);
            lemma_mul_inequality(
                v@.x * v@.x + v@.y * v@.y,
                (l as int) * (l as int),
                (SCALE as int) * (SCALE as int),
            );
            assert(((l as int) * (l as int)) * ((SCALE as int) * (SCALE as int)) == ((
            SCALE as int) * (SCALE as int)) * ((l as int) * (l as int))) by (nonlinear_arith);
            lemma_div_sum_sq(
                tdiv(v@.x * (SCALE as int), l as int),
                tdiv(v@.y * (SCALE as int), l as int),
                (SCALE as int) * (SCALE as int),
                l as int,
            );
        }
        let ux = tdiv128((v.x as i128) * (SCALE as i128), l);
        let uy = tdiv128((v.y as i128) * (SCALE as i128), l);
        let r = Vec2 { x: ux as i64, y: uy as i64 };
        proof {
            assert(r@.x == tdiv(v@.x * (SCALE as int), l as int) && r@.y == tdiv(
                v@.y * (SCALE as int),
                l as int,
            ));
        }
        r
    }
}

/// Rotate a unit-scale vector by `r`. Rotation never grows the vector.
fn rotate_unit(v: Vec2, r: Rot) -> (u: Vec2)
    requires
        -(SCALE as int) <= v.x <= SCALE as int,
        -(SCALE as int) <= v.y <= SCALE as int,
        len2_v(v@) <= (SCALE as int) * (SCALE as int),
        rot_wf(r),
    ensures
        u@ == rotate_by_v(v@, r),
        len2_v(u@) <= len2_v(v@),
        -(SCALE as int) <= u@.x <= SCALE as int,
        -(SCALE as int) <= u@.y <= SCALE as int,
{
    proof {
        lemma_mul_fits(v@.x, r.cos as int, 1000, 1000);
        lemma_mul_fits(v@.y, r.sin as int, 1000, 1000);
        lemma_mul_fits(v@.x, r.sin as int, 1000, 1000);
        lemma_mul_fits(v@.y, r.cos as int, 1000, 1000);
        lemma_tdiv_bound(v@.x * (r.cos as int) - v@.y * (r.sin as int), 1000, 2000);
        lemma_tdiv_bound(v@.x * (r.sin as int) + v@.y * (r.cos as int), 1000, 2000);
        lemma_rotate_by_shrinks(v@, r);
        lemma_len2_component_bound(rotate_by_v(v@, r), SCALE as int);
    }
    let ux = tdiv128(
        (v.x as i128) * (r.cos as i128) - (v.y as i128) * (r.sin as i128),
        SCALE as i128,
    );
    let uy = tdiv128(
        (v.x as i128) * (r.sin as i128) + (v.y as i128) * (r.cos as i128),
        SCALE as i128,
    );
    Vec2 { x: ux as i64, y: uy as i64 }
}

/// Move the player by one tick of input intent. Position changes by the
/// clamped, camera-relative input direction scaled over `dt`; speed limit
/// and facing are untouched; the displacement never exceeds
/// `max_speed * dt`, and a zero intent moves nothing.
pub fn move_player(player: &mut Player, intent: Vec2, dt: i64)
    requires
        player_wf(*old(player)),
        in_world(intent@),
        0 <= dt <= DT_LIMIT,
    ensures
        final(player).position@ == player_step_v(
            old(player).position@,
            old(player).facing,
            old(player).max_speed.0 as int,
            intent@,
            dt as int,
        ),
        final(player).max_speed == old(player).max_speed,
        final(player).facing == old(player).facing,
        player_wf(*final(player)),
        len2_v(sub_v(final(player).position@, old(player).position@)) * ((SCALE as int) * (
        SCALE as int)) <= (old(player).max_speed.0 * dt) * (old(player).max_speed.0 * dt),
        intent@ == zero_v() ==> final(player).position == old(player).position,
{
    let ghost p0 = player.position@;
    let ghost ms = player.max_speed.0 as int;
    let u = normalize_or_zero(intent);
    let dir = rotate_unit(u, player.facing);
    let ghost s2 = (SCALE as int) * (SCALE as int);
    let ghost ax = dir@.x * ms * (dt as int);
    let ghost ay = dir@.y * ms * (dt as int);
    proof {
        lemma_mul_fits(dir@.x, ms, 1000, 1_000_000_000);
        lemma_mul_fits(dir@.y, ms, 1000, 1_000_000_000);
        lemma_mul_fits(dir@.x * ms, dt as int, 1_000_000_000_000, 10_000);
        lemma_mul_fits(dir@.y * ms, dt as int, 1_000_000_000_000, 10_000);
        lemma_tdiv_bound(ax, 1_000_000, 10_000_000_000);
        lemma_tdiv_bound(ay, 1_000_000, 10_000_000_000);
        lemma_tdiv_mul_square(ax, s2);
        lemma_tdiv_mul_square(ay, s2);
        assert(ax * ax + ay * ay == (dir@.x * dir@.x + dir@.y * dir@.y) * ((ms * (dt as int)) * (
        ms * (dt as int)))) by (nonlinear_arith)
            requires
                ax == dir@.x * ms * (dt as int),
                ay == dir@.y * ms * (dt as int);
        lemma_mul_nonnegative(ms, dt as int);
        lemma_mul_nonnegative(ms * (dt as int), ms * (dt as int));
        lemma_mul_inequality(
            dir@.x * dir@.x + dir@.y * dir@.y,
            s2,
            (ms * (dt as int)) * (ms * (dt as int)),
        );
        let qx = tdiv(ax, s2);
        let qy = tdiv(ay, s2);
        assert(qx * s2 * (qx * s2) + qy * s2 * (qy * s2) == ((qx * qx + qy * qy) * s2) * s2
            && s2 * ((ms * (dt as int)) * (ms * (dt as int))) == ((ms * (dt as int)) * (ms * (
        dt as int))) * s2) by (nonlinear_arith);
        lemma_mul_inequality_converse(
            (qx * qx + qy * qy) * s2,
            (ms * (dt as int)) * (ms * (dt as int)),
            s2,
        );
    }
    let s128 = SCALE as i128;
    let sx = tdiv128(
        (dir.x as i128) * (player.max_speed.0 as i128) * (dt as i128),
        s128 * s128,
    );
    let sy = tdiv128(
        (dir.y as i128) * (player.max_speed.0 as i128) * (dt as i128),
        s128 * s128,
    );
    let px = crate::sheep::clip_coord(player.position.x + (sx as i64));
    let py = crate::sheep::clip_coord(player.position.y + (sy as i64));
    proof {
        let dx = (px as int) - p0.x;
        let dy = (py as int) - p0.y;
        assert(0 <= dx <= sx as int || sx as int <= dx <= 0);
        assert(0 <= dy <= sy as int || sy as int <= dy <= 0);
        assert(dx * dx <= (sx as int) * (sx as int) && dy * dy <= (sy as int) * (sy as int))
            by (nonlinear_arith)
            requires
                0 <= dx <= sx as int || sx as int <= dx <= 0,
                0 <= dy <= sy as int || sy as int <= dy <= 0;
        lemma_mul_inequality(
            dx * dx + dy * dy,
            (sx as int) * (sx as int) + (sy as int) * (sy as int),
            s2,
        );
        if intent@ == zero_v() {
            lemma_div_basics(SCALE as int);
            lemma_div_basics(s2);
            assert(u@ == zero_v());
            assert(u@.x * (player.facing.cos as int) - u@.y * (player.facing.sin as int) == 0
                && u@.x * (player.facing.sin as int) + u@.y * (player.facing.cos as int) == 0)
                by (nonlinear_arith)
                requires
                    u@.x == 0,
                    u@.y == 0;
            assert(dir@ == zero_v());
            assert(ax == 0 && ay == 0) by (nonlinear_arith)
                requires
                    ax == dir@.x * ms * (dt as int),
                    ay == dir@.y * ms * (dt as int),
                    dir@.x == 0,
                    dir@.y == 0;
        }
    }
    player.position = Vec2 { x: px, y: py };
}

} // verus!
