use herding::barrier::Barrier;
use herding::common::{ForceParams, MaxSpeed};
use herding::sheep::{
    barrier_influence, move_sheep, player_influence, sheep_influences, Accumulator, Sheep,
};
use herding::vec2::Vec2;

fn fresh_accumulators(n: usize) -> Vec<Accumulator> {
    let mut acc = Vec::new();
    for _ in 0..n {
        acc.push(Accumulator::new());
    }
    acc
}

#[test]
fn player_repulsion_inside_range_points_away() {
    // One agent at distance range - 1 from the player (range 10_000).
    let flock = vec![Sheep::new(Vec2::new(9_999, 0))];
    let mut acc = fresh_accumulators(1);
    player_influence(&flock, Vec2::new(0, 0), &mut acc);
    assert_eq!(acc[0].forces.len(), 1);
    let f = acc[0].forces[0];
    // strength * sep * SCALE^2 / |sep|^3, truncated: exactly 1000.
    assert!(f == Vec2::new(1000, 0));
    assert!(f.x > 0 && f.y == 0);
}

#[test]
fn player_repulsion_outside_range_is_exactly_zero() {
    // One agent at distance range + 1: no contribution at all.
    let flock = vec![Sheep::new(Vec2::new(10_001, 0))];
    let mut acc = fresh_accumulators(1);
    player_influence(&flock, Vec2::new(0, 0), &mut acc);
    assert_eq!(acc[0].forces.len(), 0);
    assert_eq!(acc[0].alignment.len(), 0);
}

#[test]
fn barrier_repulsion_pushes_off_the_closest_point() {
    let flock = vec![Sheep::new(Vec2::new(0, 0))];
    let barriers = vec![Barrier::new(Vec2::new(2000, -1000), Vec2::new(2000, 1000))];
    let mut acc = fresh_accumulators(1);
    barrier_influence(&flock, &barriers, &mut acc);
    assert_eq!(acc[0].forces.len(), 1);
    // Closest point (2000, 0), separation (-2000, 0):
    // strength * sep * SCALE / |sep|^2 == -50_000.
    assert!(acc[0].forces[0] == Vec2::new(-50_000, 0));
}

#[test]
fn barrier_out_of_range_contributes_nothing() {
    // Barrier avoidance range is 5 world units; the barrier is 7 away.
    let flock = vec![Sheep::new(Vec2::new(0, 0))];
    let barriers = vec![Barrier::new(Vec2::new(7_000, -1000), Vec2::new(7_000, 1000))];
    let mut acc = fresh_accumulators(1);
    barrier_influence(&flock, &barriers, &mut acc);
    assert_eq!(acc[0].forces.len(), 0);
}

#[test]
fn pairwise_forces_are_equal_and_opposite() {
    // Two stock agents share identical strengths and ranges.
    let flock = vec![Sheep::new(Vec2::new(0, 0)), Sheep::new(Vec2::new(3000, 0))];
    let mut acc = fresh_accumulators(2);
    sheep_influences(&flock, &mut acc);
    assert_eq!(acc[0].forces.len(), 2);
    assert_eq!(acc[1].forces.len(), 2);
    // Separation: 10_000 * -3000 * 1000 / 3000^2 == -3333 for the first
    // agent; cohesion pulls it toward the peer: 5_000 * 3000 / 3000.
    assert!(acc[0].forces[0] == Vec2::new(-3333, 0));
    assert!(acc[0].forces[1] == Vec2::new(5000, 0));
    for i in 0..2 {
        let fa = acc[0].forces[i];
        let fb = acc[1].forces[i];
        assert_eq!(fa.x, -fb.x);
        assert_eq!(fa.y, -fb.y);
    }
    // Both momenta are zero, so each alignment sample is the zero vector.
    assert_eq!(acc[0].alignment.len(), 1);
    assert_eq!(acc[1].alignment.len(), 1);
    assert!(acc[0].alignment[0] == Vec2::new(0, 0));
}

#[test]
fn separation_range_is_per_agent() {
    // The first agent's separation cutoff is shortened below the pair
    // distance; only the second agent still reacts with repulsion.
    let mut near_sighted = Sheep::new(Vec2::new(0, 0));
    near_sighted.separation = ForceParams::new(10_000, 1_000);
    let flock = vec![near_sighted, Sheep::new(Vec2::new(3000, 0))];
    let mut acc = fresh_accumulators(2);
    sheep_influences(&flock, &mut acc);
    // Only cohesion for the first agent, separation and cohesion for the
    // second.
    assert_eq!(acc[0].forces.len(), 1);
    assert!(acc[0].forces[0] == Vec2::new(5000, 0));
    assert_eq!(acc[1].forces.len(), 2);
    assert!(acc[1].forces[0] == Vec2::new(3333, 0));
    assert!(acc[1].forces[1] == Vec2::new(-5000, 0));
}

#[test]
fn integration_applies_force_damping_and_displacement() {
    let sheep = Sheep {
        position: Vec2::new(0, 0),
        momentum: Vec2::new(1000, 0),
        heading: Vec2::new(0, 0),
        max_speed: MaxSpeed::new(5000),
        player_avoidance: ForceParams::new(100_000, 10_000),
        barrier_avoidance: ForceParams::new(100_000, 5_000),
        separation: ForceParams::new(10_000, 10_000),
        cohesion: ForceParams::new(5_000, 10_000),
        alignment: ForceParams::new(1_000, 10_000),
    };
    let acc = Accumulator { forces: vec![Vec2::new(500, 0)], alignment: vec![] };
    let mut flock = vec![sheep];
    let mut accs = vec![acc];
    // One second: momentum 1000 + force 500 - damping 800 == 700.
    move_sheep(&mut flock, &mut accs, 1000);
    assert!(flock[0].momentum == Vec2::new(700, 0));
    assert!(flock[0].position == Vec2::new(700, 0));
    assert!(flock[0].heading == Vec2::new(700, 0));
    assert_eq!(accs[0].forces.len(), 0);
    assert_eq!(accs[0].alignment.len(), 0);
}

#[test]
fn alignment_samples_are_averaged_not_summed() {
    let mut sheep = Sheep::new(Vec2::new(0, 0));
    sheep.alignment = ForceParams::new(1_000, 10_000);
    let acc = Accumulator {
        forces: vec![],
        alignment: vec![Vec2::new(1000, 0), Vec2::new(3000, 0)],
    };
    let mut flock = vec![sheep];
    let mut accs = vec![acc];
    // Average 2000, times strength 1.0 and dt 1.0: momentum 2000.
    move_sheep(&mut flock, &mut accs, 1000);
    assert!(flock[0].momentum == Vec2::new(2000, 0));
    assert!(flock[0].position == Vec2::new(2000, 0));
}

#[test]
fn momentum_is_clamped_to_max_speed() {
    let mut flock = vec![Sheep::new(Vec2::new(0, 0))];
    let mut accs = vec![Accumulator {
        forces: vec![Vec2::new(1_000_000_000_000, 0)],
        alignment: vec![],
    }];
    move_sheep(&mut flock, &mut accs, 10_000);
    // The overshooting force is clamped exactly to the 5000 speed limit.
    assert!(flock[0].momentum == Vec2::new(5000, 0));
    let m = flock[0].momentum;
    let len2 = (m.x as i128) * (m.x as i128) + (m.y as i128) * (m.y as i128);
    assert!(len2 <= 5000i128 * 5000i128);
}

#[test]
fn momentum_clamp_preserves_direction_within_rounding() {
    let mut flock = vec![Sheep::new(Vec2::new(0, 0))];
    let mut accs = vec![Accumulator {
        forces: vec![Vec2::new(300_000_000, 400_000_000)],
        alignment: vec![],
    }];
    move_sheep(&mut flock, &mut accs, 1000);
    // Ideal momentum (300_000_000, 400_000_000) has length 500_000_000;
    // clamped to 5000 it keeps the 3:4 ratio exactly.
    assert!(flock[0].momentum == Vec2::new(3000, 4000));
}

#[test]
fn dead_zone_momentum_is_kept_but_produces_no_displacement() {
    let sheep = Sheep {
        position: Vec2::new(1234, 5678),
        momentum: Vec2::new(0, 0),
        heading: Vec2::new(777, 0),
        max_speed: MaxSpeed::new(5000),
        player_avoidance: ForceParams::new(100_000, 10_000),
        barrier_avoidance: ForceParams::new(100_000, 5_000),
        separation: ForceParams::new(10_000, 10_000),
        cohesion: ForceParams::new(5_000, 10_000),
        alignment: ForceParams::new(1_000, 10_000),
    };
    let mut flock = vec![sheep];
    let mut accs = vec![Accumulator { forces: vec![Vec2::new(8, 0)], alignment: vec![] }];
    // Momentum becomes (8, 0): length 8 is under the 0.01-unit dead zone,
    // so it is stored but moves nothing, and the heading stays.
    move_sheep(&mut flock, &mut accs, 1000);
    assert!(flock[0].momentum == Vec2::new(8, 0));
    assert!(flock[0].position == Vec2::new(1234, 5678));
    assert!(flock[0].heading == Vec2::new(777, 0));
}

#[test]
fn zero_dt_changes_neither_positions_nor_momenta() {
    let sheep = Sheep {
        position: Vec2::new(4000, -2500),
        momentum: Vec2::new(3000, 4000),
        heading: Vec2::new(1, 0),
        max_speed: MaxSpeed::new(5000),
        player_avoidance: ForceParams::new(100_000, 10_000),
        barrier_avoidance: ForceParams::new(100_000, 5_000),
        separation: ForceParams::new(10_000, 10_000),
        cohesion: ForceParams::new(5_000, 10_000),
        alignment: ForceParams::new(1_000, 10_000),
    };
    let mut flock = vec![sheep, Sheep::new(Vec2::new(0, 0))];
    let mut accs = fresh_accumulators(2);
    // Even with pending forces the zero-length tick is a fixed point.
    player_influence(&flock, Vec2::new(4500, -2500), &mut accs);
    move_sheep(&mut flock, &mut accs, 0);
    assert!(flock[0].position == Vec2::new(4000, -2500));
    assert!(flock[0].momentum == Vec2::new(3000, 4000));
    assert!(flock[1].position == Vec2::new(0, 0));
    assert!(flock[1].momentum == Vec2::new(0, 0));
}

#[test]
fn small_momenta_keep_decaying() {
    // Damping rounds away from zero: even a tiny momentum loses at least
    // one subunit per tick once forcing stops.
    let mut sheep = Sheep::new(Vec2::new(0, 0));
    sheep.momentum = Vec2::new(50, 0);
    let mut flock = vec![sheep];
    let mut accs = vec![Accumulator { forces: vec![], alignment: vec![] }];
    // 16 ms: the exact damping term is 0.64 subunits, rounded up to 1.
    move_sheep(&mut flock, &mut accs, 16);
    assert!(flock[0].momentum == Vec2::new(49, 0));
}

#[test]
fn unforced_momentum_decays_to_rest() {
    let mut sheep = Sheep::new(Vec2::new(0, 0));
    sheep.momentum = Vec2::new(5, -3);
    let mut flock = vec![sheep];
    let mut prev = 5i128 * 5 + 3 * 3;
    for _ in 0..10 {
        let mut accs = vec![Accumulator { forces: vec![], alignment: vec![] }];
        move_sheep(&mut flock, &mut accs, 1000);
        let m = flock[0].momentum;
        let len2 = (m.x as i128) * (m.x as i128) + (m.y as i128) * (m.y as i128);
        assert!(len2 < prev || (len2 == 0 && prev == 0));
        prev = len2;
    }
    assert!(flock[0].momentum == Vec2::new(0, 0));
    // Below the dead zone nothing ever moved.
    assert!(flock[0].position == Vec2::new(0, 0));
}

#[test]
fn cohesion_at_subunit_separation_stays_within_strength() {
    // Distance sqrt(2) subunits: the rounded-up length 2 keeps the pull
    // at or below its strength, where a floored length would overshoot.
    let flock = vec![Sheep::new(Vec2::new(0, 0)), Sheep::new(Vec2::new(1, 1))];
    let mut acc = fresh_accumulators(2);
    sheep_influences(&flock, &mut acc);
    // forces[0] is separation, forces[1] cohesion.
    assert!(acc[0].forces[1] == Vec2::new(2500, 2500));
    assert!(acc[1].forces[1] == Vec2::new(-2500, -2500));
    let c = acc[0].forces[1];
    let len2 = (c.x as i128) * (c.x as i128) + (c.y as i128) * (c.y as i128);
    assert!(len2 <= 5000i128 * 5000i128);
}
