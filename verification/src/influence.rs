//! The force formulas. Each influence is a single vector contribution,
//! computed from the separation between an agent and what it reacts to:
//!
//! * player avoidance  — `strength * sep / |sep|^3` (inverse-square
//!   repulsion along the unit direction),
//! * barrier avoidance and peer separation — `strength * sep / |sep|^2`
//!   (inverse-linear repulsion),
//! * peer cohesion — a unit vector toward the peer times `strength`,
//! * peer alignment — the peer's momentum scaled by the inverse distance.
//!
//! The repulsion laws divide by the length rounded down and the
//! normalizing laws (cohesion, alignment) by the length rounded up, each
//! floored at one subunit, so a coincident pair never divides by zero and
//! a normalized contribution never exceeds its real-arithmetic bound.
//! Truncation can also erase a weak repulsion entirely:
//! `lemma_player_repulsion_nonzero` states the cutoff bound under which a
//! repulsion within range is guaranteed to be nonzero.

use vstd::prelude::*;
use vstd::arithmetic::div_mod::{lemma_div_basics, lemma_div_is_ordered, lemma_div_pos_is_pos};
use vstd::arithmetic::mul::lemma_mul_inequality;
use crate::fixed::{FORCE_LIMIT, POSITION_LIMIT, SCALE, SPEED_LIMIT, STRENGTH_LIMIT};
use crate::fixed::{
    lemma_mul_fits, lemma_sqrt_floor_bounds, lemma_tdiv_bound, lemma_tdiv_neg, tdiv, tdiv128,
};
use crate::vec2::{dot_v, len_ceil, len_floor, len2_v, neg_v, zero_v, Vec2, V2};
use crate::vec2::{
    lemma_div_sum_sq, lemma_len_ceil_bounds, lemma_len2_component_bound, lemma_len2_nonneg,
    lemma_tdiv_mul_square,
};

verus! {

/// Whether a separation vector is strictly within a cutoff radius.
pub open spec fn within_range(sep: V2, range: int) -> bool {
    len2_v(sep) < range * range
}

/// Player avoidance: `strength * sep / |sep|^3`, in fixed point.
pub open spec fn player_repulsion_v(sep: V2, strength: int) -> V2 {
    let l = len_floor(sep);
    V2 {
        x: tdiv(strength * sep.x * (SCALE as int) * (SCALE as int), l * l * l),
        y: tdiv(strength * sep.y * (SCALE as int) * (SCALE as int), l * l * l),
    }
}

/// Barrier avoidance and peer separation: `strength * sep / |sep|^2`.
pub open spec fn inverse_linear_repulsion_v(sep: V2, strength: int) -> V2 {
    let l = len_floor(sep);
    V2 {
        x: tdiv(strength * sep.x * (SCALE as int), l * l),
        y: tdiv(strength * sep.y * (SCALE as int), l * l),
    }
}

/// Peer cohesion: the unit vector toward the peer times `strength`. The
/// rounded-up length keeps the pull within `strength`, as a true unit
/// vector would.
pub open spec fn cohesion_pull_v(sep: V2, strength: int) -> V2 {
    let l = len_ceil(sep);
    V2 { x: tdiv(-(strength * sep.x), l), y: tdiv(-(strength * sep.y), l) }
}

/// Peer alignment: the peer's momentum scaled by the inverse distance,
/// rounded up.
pub open spec fn alignment_sample_v(peer_momentum: V2, sep: V2) -> V2 {
    let l = len_ceil(sep);
    V2 {
        x: tdiv((SCALE as int) * peer_momentum.x, l),
        y: tdiv((SCALE as int) * peer_momentum.y, l),
    }
}

/// Components of a vector are bounded by its floored length.
pub proof fn lemma_component_le_len_floor(v: V2)
    ensures
        1 <= len_floor(v),
        -len_floor(v) <= v.x <= len_floor(v),
        -len_floor(v) <= v.y <= len_floor(v),
{
    lemma_len2_nonneg(v);
    let n = len2_v(v);
    lemma_sqrt_floor_bounds(n);
    let sf = crate::fixed::sqrt_floor(n);
    let l = len_floor(v);
    assert(-l <= v.x <= l) by (nonlinear_arith)
        requires
            v.x * v.x <= n,
            n < (sf + 1) * (sf + 1),
            0 <= sf <= l;
    assert(-l <= v.y <= l) by (nonlinear_arith)
        requires
            v.y * v.y <= n,
            n < (sf + 1) * (sf + 1),
            0 <= sf <= l;
}

/// The player repulsion is bounded by `strength * SCALE^2`, and so by
/// `FORCE_LIMIT`.
pub proof fn lemma_player_repulsion_bound(sep: V2, k: int)
    requires
        0 <= k <= STRENGTH_LIMIT as int,
    ensures
        -(FORCE_LIMIT as int) <= player_repulsion_v(sep, k).x <= FORCE_LIMIT as int,
        -(FORCE_LIMIT as int) <= player_repulsion_v(sep, k).y <= FORCE_LIMIT as int,
{
    let l = len_floor(sep);
    let b = k * (SCALE as int) * (SCALE as int);
    lemma_component_le_len_floor(sep);
    assert(l * l * l >= 1 && -(b * (l * l * l)) <= k * sep.x * (SCALE as int) * (SCALE as int)
        <= b * (l * l * l)) by (nonlinear_arith)
        requires
            -l <= sep.x <= l,
            l >= 1,
            0 <= k,
            b == k * (SCALE as int) * (SCALE as int);
    assert(-(b * (l * l * l)) <= k * sep.y * (SCALE as int) * (SCALE as int) <= b * (l * l * l))
        by (nonlinear_arith)
        requires
            -l <= sep.y <= l,
            l >= 1,
            0 <= k,
            b == k * (SCALE as int) * (SCALE as int);
    lemma_tdiv_bound(k * sep.x * (SCALE as int) * (SCALE as int), l * l * l, b);
    lemma_tdiv_bound(k * sep.y * (SCALE as int) * (SCALE as int), l * l * l, b);
}

/// The inverse-linear repulsion is bounded by `strength * SCALE`, and so
/// by `FORCE_LIMIT`.
pub proof fn lemma_inverse_linear_repulsion_bound(sep: V2, k: int)
    requires
        0 <= k <= STRENGTH_LIMIT as int,
    ensures
        -(FORCE_LIMIT as int) <= inverse_linear_repulsion_v(sep, k).x <= FORCE_LIMIT as int,
        -(FORCE_LIMIT as int) <= inverse_linear_repulsion_v(sep, k).y <= FORCE_LIMIT as int,
{
    let l = len_floor(sep);
    let b = k * (SCALE as int);
    lemma_component_le_len_floor(sep);
    assert(l * l >= 1 && -(b * (l * l)) <= k * sep.x * (SCALE as int) <= b * (l * l))
        by (nonlinear_arith)
        requires
            -l <= sep.x <= l,
            l >= 1,
            0 <= k,
            b == k * (SCALE as int);
    assert(-(b * (l * l)) <= k * sep.y * (SCALE as int) <= b * (l * l)) by (nonlinear_arith)
        requires
            -l <= sep.y <= l,
            l >= 1,
            0 <= k,
            b == k * (SCALE as int);
    lemma_tdiv_bound(k * sep.x * (SCALE as int), l * l, b);
    lemma_tdiv_bound(k * sep.y * (SCALE as int), l * l, b);
}

/// The cohesion pull stays within `strength`, component-wise and in
/// length: it is a truncated unit vector scaled by `strength`.
pub proof fn lemma_cohesion_pull_bound(sep: V2, k: int)
    requires
        0 <= k <= STRENGTH_LIMIT as int,
    ensures
        -(FORCE_LIMIT as int) <= cohesion_pull_v(sep, k).x <= FORCE_LIMIT as int,
        -(FORCE_LIMIT as int) <= cohesion_pull_v(sep, k).y <= FORCE_LIMIT as int,
        len2_v(cohesion_pull_v(sep, k)) <= k * k,
{
    let l = len_ceil(sep);
    lemma_len_ceil_bounds(sep);
    lemma_len2_component_bound(sep, l);
    assert(-(k * l) <= -(k * sep.x) <= k * l) by (nonlinear_arith)
        requires
            -l <= sep.x <= l,
            l >= 1,
            0 <= k;
    assert(-(k * l) <= -(k * sep.y) <= k * l) by (nonlinear_arith)
        requires
            -l <= sep.y <= l,
            l >= 1,
            0 <= k;
    lemma_tdiv_bound(-(k * sep.x), l, k);
    lemma_tdiv_bound(-(k * sep.y), l, k);
    lemma_tdiv_mul_square(-(k * sep.x), l);
    lemma_tdiv_mul_square(-(k * sep.y), l);
    assert((-(k * sep.x)) * (-(k * sep.x)) == (k * k) * (sep.x * sep.x) && (-(k * sep.y)) * (-(k
        * sep.y)) == (k * k) * (sep.y * sep.y)) by (nonlinear_arith);
    assert((k * k) * (sep.x * sep.x) + (k * k) * (sep.y * sep.y) == (sep.x * sep.x + sep.y
        * sep.y) * (k * k)) by (nonlinear_arith);
    assert(k * k >= 0) by (nonlinear_arith);
    lemma_mul_inequality(sep.x * sep.x + sep.y * sep.y, l * l, k * k);
    assert((l * l) * (k * k) == (k * k) * (l * l)) by (nonlinear_arith);
    lemma_div_sum_sq(tdiv(-(k * sep.x), l), tdiv(-(k * sep.y), l), k * k, l);
}

/// An alignment sample of a momentum within the speed limit is bounded by
/// `SCALE * SPEED_LIMIT == FORCE_LIMIT`.
pub proof fn lemma_alignment_sample_bound(m: V2, sep: V2)
    requires
        -(SPEED_LIMIT as int) <= m.x <= SPEED_LIMIT as int,
        -(SPEED_LIMIT as int) <= m.y <= SPEED_LIMIT as int,
    ensures
        -(FORCE_LIMIT as int) <= alignment_sample_v(m, sep).x <= FORCE_LIMIT as int,
        -(FORCE_LIMIT as int) <= alignment_sample_v(m, sep).y <= FORCE_LIMIT as int,
{
    let l = len_ceil(sep);
    let b = (SCALE as int) * (SPEED_LIMIT as int);
    lemma_len_ceil_bounds(sep);
    assert(-(b * l) <= (SCALE as int) * m.x <= b * l) by (nonlinear_arith)
        requires
            -(SPEED_LIMIT as int) <= m.x <= SPEED_LIMIT as int,
            l >= 1,
            b == (SCALE as int) * (SPEED_LIMIT as int);
    assert(-(b * l) <= (SCALE as int) * m.y <= b * l) by (nonlinear_arith)
        requires
            -(SPEED_LIMIT as int) <= m.y <= SPEED_LIMIT as int,
            l >= 1,
            b == (SCALE as int) * (SPEED_LIMIT as int);
    lemma_tdiv_bound((SCALE as int) * m.x, l, b);
    lemma_tdiv_bound((SCALE as int) * m.y, l, b);
}

/// Negating the separation negates the separation and cohesion forces:
/// for two agents with identical strength, the pairwise contributions are
/// equal and opposite.
pub proof fn lemma_pairwise_equal_opposite(sep: V2, k: int)
    ensures
        len2_v(neg_v(sep)) == len2_v(sep),
        inverse_linear_repulsion_v(neg_v(sep), k) == neg_v(inverse_linear_repulsion_v(sep, k)),
        cohesion_pull_v(neg_v(sep), k) == neg_v(cohesion_pull_v(sep, k)),
{
    assert(len2_v(neg_v(sep)) == len2_v(sep)) by (nonlinear_arith);
    let l = len_floor(sep);
    let lc = len_ceil(sep);
    lemma_component_le_len_floor(sep);
    lemma_len_ceil_bounds(sep);
    assert(len_floor(neg_v(sep)) == l);
    assert(len_ceil(neg_v(sep)) == lc);
    assert(k * (-sep.x) * (SCALE as int) == -(k * sep.x * (SCALE as int)) && k * (-sep.y) * (
    SCALE as int) == -(k * sep.y * (SCALE as int))) by (nonlinear_arith);
    assert(-(k * (-sep.x)) == -(-(k * sep.x)) && -(k * (-sep.y)) == -(-(k * sep.y)))
        by (nonlinear_arith);
    assert(l * l >= 1) by (nonlinear_arith)
        requires
            l >= 1;
    lemma_tdiv_neg(k * sep.x * (SCALE as int), l * l);
    lemma_tdiv_neg(k * sep.y * (SCALE as int), l * l);
    lemma_tdiv_neg(-(k * sep.x), lc);
    lemma_tdiv_neg(-(k * sep.y), lc);
}

/// On the dominant axis (the component at least as large as the other),
/// the player repulsion keeps the separation's sign with magnitude at
/// least one, and the other component never opposes its separation.
proof fn lemma_player_repulsion_dominant(sep: V2, k: int, range: int)
    requires
        1 <= k,
        1 <= range,
        within_range(sep, range),
        len2_v(sep) >= 1,
        2 * (range * range) <= k * (SCALE as int) * (SCALE as int),
        sep.x * sep.x >= sep.y * sep.y,
    ensures
        player_repulsion_v(sep, k).x * sep.x >= 1,
        player_repulsion_v(sep, k).y * sep.y >= 0,
{
    let sc = SCALE as int;
    let l = len_floor(sep);
    let d = l * l * l;
    lemma_component_le_len_floor(sep);
    lemma_len2_nonneg(sep);
    lemma_sqrt_floor_bounds(len2_v(sep));
    assert(l * l <= len2_v(sep)) by {
        assert(crate::fixed::sqrt_floor(len2_v(sep)) >= 1) by (nonlinear_arith)
            requires
                len2_v(sep) >= 1,
                crate::fixed::sqrt_floor(len2_v(sep)) >= 0,
                len2_v(sep) < (crate::fixed::sqrt_floor(len2_v(sep)) + 1) * (crate::fixed::sqrt_floor(
                    len2_v(sep),
                ) + 1);
    }
    assert(l < range) by (nonlinear_arith)
        requires
            l * l < range * range,
            l >= 0,
            range >= 0;
    assert(d >= 1 && l * l >= 1 && d == l * (l * l)) by (nonlinear_arith)
        requires
            l >= 1,
            d == l * l * l;
    // The dominant component is at least half the floored length.
    assert(sep.x * sep.x >= 1) by {
        assert(2 * (sep.x * sep.x) >= len2_v(sep));
    }
    assert(2 * sep.x >= l || -(2 * sep.x) >= l) by (nonlinear_arith)
        requires
            4 * (sep.x * sep.x) >= l * l,
            l >= 0;
    // The cutoff bound beats the cubic divisor.
    assert(k * (sc * sc) >= 2 * (l * l)) by {
        assert(l * l < range * range) by (nonlinear_arith)
            requires
                0 <= l < range;
        assert(k * sc * sc == k * (sc * sc)) by (nonlinear_arith);
    }
    if sep.x >= 1 {
        assert(k * sep.x * sc * sc >= l * l * l) by (nonlinear_arith)
            requires
                k >= 1,
                sep.x >= 1,
                l >= 1,
                2 * sep.x >= l,
                k * (sc * sc) >= 2 * (l * l);
        lemma_div_is_ordered(d, k * sep.x * sc * sc, d);
        lemma_div_basics(d);
        assert(player_repulsion_v(sep, k).x * sep.x >= 1) by (nonlinear_arith)
            requires
                player_repulsion_v(sep, k).x >= 1,
                sep.x >= 1;
    } else {
        assert(sep.x <= -1);
        assert(-(k * sep.x * sc * sc) >= l * l * l && k * sep.x * sc * sc < 0) by (nonlinear_arith)
            requires
                k >= 1,
                sep.x <= -1,
                l >= 1,
                -(2 * sep.x) >= l,
                k * (sc * sc) >= 2 * (l * l);
        lemma_div_is_ordered(d, -(k * sep.x * sc * sc), d);
        lemma_div_basics(d);
        assert(player_repulsion_v(sep, k).x * sep.x >= 1) by (nonlinear_arith)
            requires
                player_repulsion_v(sep, k).x <= -1,
                sep.x <= -1;
    }
    if sep.y >= 0 {
        assert(k * sep.y * sc * sc >= 0) by (nonlinear_arith)
            requires
                k >= 0,
                sep.y >= 0,
                sc >= 0;
        lemma_div_pos_is_pos(k * sep.y * sc * sc, d);
        assert(player_repulsion_v(sep, k).y * sep.y >= 0) by (nonlinear_arith)
            requires
                player_repulsion_v(sep, k).y >= 0,
                sep.y >= 0;
    } else {
        assert(k * sep.y * sc * sc < 0) by (nonlinear_arith)
            requires
                k >= 1,
                sep.y <= -1,
                sc >= 1;
        lemma_div_pos_is_pos(-(k * sep.y * sc * sc), d);
        assert(player_repulsion_v(sep, k).y * sep.y >= 0) by (nonlinear_arith)
            requires
                player_repulsion_v(sep, k).y <= 0,
                sep.y <= 0;
    }
}

/// Within range, against a nonzero separation, the player repulsion is
/// itself nonzero and points away from the player — each component keeps
/// the separation's sign and their dot product is strictly positive —
/// provided the cutoff radius is small enough that truncation cannot
/// erase the force: `2 * range^2 <= strength * SCALE^2`.
pub proof fn lemma_player_repulsion_nonzero(sep: V2, k: int, range: int)
    requires
        1 <= k,
        1 <= range,
        within_range(sep, range),
        len2_v(sep) >= 1,
        2 * (range * range) <= k * (SCALE as int) * (SCALE as int),
    ensures
        player_repulsion_v(sep, k) != zero_v(),
        dot_v(player_repulsion_v(sep, k), sep) > 0,
        player_repulsion_v(sep, k).x * sep.x >= 0,
        player_repulsion_v(sep, k).y * sep.y >= 0,
{
    let f = player_repulsion_v(sep, k);
    if sep.x * sep.x >= sep.y * sep.y {
        lemma_player_repulsion_dominant(sep, k, range);
        assert(f.x * sep.x >= 1 ==> f.x != 0) by (nonlinear_arith);
    } else {
        let swapped = V2 { x: sep.y, y: sep.x };
        lemma_player_repulsion_dominant(swapped, k, range);
        assert(len_floor(swapped) == len_floor(sep));
        assert(player_repulsion_v(swapped, k).x == f.y && player_repulsion_v(swapped, k).y == f.x);
        assert(f.y * sep.y >= 1 ==> f.y != 0) by (nonlinear_arith);
    }
}

/// Executable player repulsion.
pub fn player_repulsion(sep: Vec2, strength: i64) -> (f: Vec2)
    requires
        -2 * (POSITION_LIMIT as int) <= sep.x <= 2 * (POSITION_LIMIT as int),
        -2 * (POSITION_LIMIT as int) <= sep.y <= 2 * (POSITION_LIMIT as int),
        0 <= strength <= STRENGTH_LIMIT,
    ensures
        f@ == player_repulsion_v(sep@, strength as int),
        -(FORCE_LIMIT as int) <= f@.x <= FORCE_LIMIT as int,
        -(FORCE_LIMIT as int) <= f@.y <= FORCE_LIMIT as int,
{
    let l = sep.length_floor();
    proof {
        lemma_mul_fits(sep@.x, sep@.x, 2_000_000_000_000, 2_000_000_000_000);
        lemma_mul_fits(sep@.y, sep@.y, 2_000_000_000_000, 2_000_000_000_000);
        assert(len2_v(sep@) <= 8_000_000_000_000_000_000_000_000);
        assert(l <= 3_000_000_000_000) by (nonlinear_arith)
            requires
                l * l <= 8_000_000_000_000_000_000_000_000 || l == 1,
                l >= 1;
        assert(l * l >= 1 && l * l * l >= 1) by (nonlinear_arith)
            requires
                l >= 1;
        lemma_mul_fits(l as int, l as int, 3_000_000_000_000, 3_000_000_000_000);
        lemma_mul_fits(l as int * (l as int), l as int, 9_000_000_000_000_000_000_000_000,
            3_000_000_000_000);
        lemma_mul_fits(strength as int, sep@.x, 1_000_000, 2_000_000_000_000);
        lemma_mul_fits(strength as int, sep@.y, 1_000_000, 2_000_000_000_000);
        lemma_mul_fits(strength as int * sep@.x, SCALE as int, 2_000_000_000_000_000_000, 1000);
        lemma_mul_fits(strength as int * sep@.y, SCALE as int, 2_000_000_000_000_000_000, 1000);
        lemma_mul_fits(strength as int * sep@.x * (SCALE as int), SCALE as int,
            2_000_000_000_000_000_000_000, 1000);
        lemma_mul_fits(strength as int * sep@.y * (SCALE as int), SCALE as int,
            2_000_000_000_000_000_000_000, 1000);
        lemma_player_repulsion_bound(sep@, strength as int);
    }
    let den = l * l * l;
    let fx = tdiv128((strength as i128) * (sep.x as i128) * (SCALE as i128) * (SCALE as i128), den);
    let fy = tdiv128((strength as i128) * (sep.y as i128) * (SCALE as i128) * (SCALE as i128), den);
    Vec2 { x: fx as i64, y: fy as i64 }
}

/// Executable inverse-linear repulsion (barrier avoidance and peer
/// separation).
pub fn inverse_linear_repulsion(sep: Vec2, strength: i64) -> (f: Vec2)
    requires
        -4 * (POSITION_LIMIT as int) <= sep.x <= 4 * (POSITION_LIMIT as int),
        -4 * (POSITION_LIMIT as int) <= sep.y <= 4 * (POSITION_LIMIT as int),
        0 <= strength <= STRENGTH_LIMIT,
    ensures
        f@ == inverse_linear_repulsion_v(sep@, strength as int),
        -(FORCE_LIMIT as int) <= f@.x <= FORCE_LIMIT as int,
        -(FORCE_LIMIT as int) <= f@.y <= FORCE_LIMIT as int,
{
    let l = sep.length_floor();
    proof {
        lemma_mul_fits(sep@.x, sep@.x, 4_000_000_000_000, 4_000_000_000_000);
        lemma_mul_fits(sep@.y, sep@.y, 4_000_000_000_000, 4_000_000_000_000);
        assert(l <= 6_000_000_000_000) by (nonlinear_arith)
            requires
                l * l <= 32_000_000_000_000_000_000_000_000 || l == 1,
                l >= 1;
        assert(l * l >= 1) by (nonlinear_arith)
            requires
                l >= 1;
        lemma_mul_fits(l as int, l as int, 6_000_000_000_000, 6_000_000_000_000);
        lemma_mul_fits(strength as int, sep@.x, 1_000_000, 4_000_000_000_000);
        lemma_mul_fits(strength as int, sep@.y, 1_000_000, 4_000_000_000_000);
        lemma_mul_fits(strength as int * sep@.x, SCALE as int, 4_000_000_000_000_000_000, 1000);
        lemma_mul_fits(strength as int * sep@.y, SCALE as int, 4_000_000_000_000_000_000, 1000);
        lemma_inverse_linear_repulsion_bound(sep@, strength as int);
    }
    let den = l * l;
    let fx = tdiv128((strength as i128) * (sep.x as i128) * (SCALE as i128), den);
    let fy = tdiv128((strength as i128) * (sep.y as i128) * (SCALE as i128), den);
    Vec2 { x: fx as i64, y: fy as i64 }
}

/// Executable cohesion pull.
pub fn cohesion_pull(sep: Vec2, strength: i64) -> (f: Vec2)
    requires
        -4 * (POSITION_LIMIT as int) <= sep.x <= 4 * (POSITION_LIMIT as int),
        -4 * (POSITION_LIMIT as int) <= sep.y <= 4 * (POSITION_LIMIT as int),
        0 <= strength <= STRENGTH_LIMIT,
    ensures
        f@ == cohesion_pull_v(sep@, strength as int),
        -(FORCE_LIMIT as int) <= f@.x <= FORCE_LIMIT as int,
        -(FORCE_LIMIT as int) <= f@.y <= FORCE_LIMIT as int,
{
    let l = sep.length_ceil();
    proof {
        lemma_mul_fits(strength as int, sep@.x, 1_000_000, 4_000_000_000_000);
        lemma_mul_fits(strength as int, sep@.y, 1_000_000, 4_000_000_000_000);
        lemma_cohesion_pull_bound(sep@, strength as int);
    }
    let fx = tdiv128(-((strength as i128) * (sep.x as i128)), l);
    let fy = tdiv128(-((strength as i128) * (sep.y as i128)), l);
    Vec2 { x: fx as i64, y: fy as i64 }
}

/// Executable alignment sample.
pub fn alignment_sample(peer_momentum: Vec2, sep: Vec2) -> (f: Vec2)
    requires
        -4 * (POSITION_LIMIT as int) <= sep.x <= 4 * (POSITION_LIMIT as int),
        -4 * (POSITION_LIMIT as int) <= sep.y <= 4 * (POSITION_LIMIT as int),
        -(SPEED_LIMIT as int) <= peer_momentum.x <= SPEED_LIMIT as int,
        -(SPEED_LIMIT as int) <= peer_momentum.y <= SPEED_LIMIT as int,
    ensures
        f@ == alignment_sample_v(peer_momentum@, sep@),
        -(FORCE_LIMIT as int) <= f@.x <= FORCE_LIMIT as int,
        -(FORCE_LIMIT as int) <= f@.y <= FORCE_LIMIT as int,
{
    let l = sep.length_ceil();
    proof {
        lemma_mul_fits(SCALE as int, peer_momentum@.x, 1000, 1_000_000_000);
        lemma_mul_fits(SCALE as int, peer_momentum@.y, 1000, 1_000_000_000);
        lemma_alignment_sample_bound(peer_momentum@, sep@);
    }
    let fx = tdiv128((SCALE as i128) * (peer_momentum.x as i128), l);
    let fy = tdiv128((SCALE as i128) * (peer_momentum.y as i128), l);
    Vec2 { x: fx as i64, y: fy as i64 }
}

} // verus!
