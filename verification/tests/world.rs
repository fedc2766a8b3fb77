use herding::barrier::Barrier;
use herding::pen::Pen;
use herding::player::{move_player, normalize_or_zero, Player};
use herding::sheep::Sheep;
use herding::simulation::{check_win, tick, World};
use herding::vec2::{Rot, Vec2};

fn square_pen() -> Pen {
    // Centred at the origin, 10 by 10 world units, angle zero.
    Pen::new(Vec2::new(0, 0), 10_000, 10_000, Rot::identity())
}

fn far_player() -> Player {
    Player::new(Vec2::new(500_000, 500_000))
}

#[test]
fn containment_holds_while_all_agents_are_strictly_inside() {
    let pen = square_pen();
    let flock = vec![
        Sheep::new(Vec2::new(1000, 2000)),
        Sheep::new(Vec2::new(-3000, 4000)),
        Sheep::new(Vec2::new(0, -4999)),
    ];
    assert!(check_win(&pen, &flock));
}

#[test]
fn containment_flips_when_one_agent_steps_out() {
    let pen = square_pen();
    let mut flock = vec![
        Sheep::new(Vec2::new(1000, 2000)),
        Sheep::new(Vec2::new(-3000, 4000)),
    ];
    assert!(check_win(&pen, &flock));
    // Move a single agent to x == 5.1 world units: no longer contained.
    flock[1] = Sheep::new(Vec2::new(5100, 0));
    assert!(!check_win(&pen, &flock));
}

#[test]
fn empty_flock_counts_as_contained() {
    let flock: Vec<Sheep> = Vec::new();
    assert!(check_win(&square_pen(), &flock));
}

#[test]
fn tick_reports_containment_of_the_updated_flock() {
    let mut world = World::new(Vec::new(), square_pen(), far_player());
    world.push_spawn_request(Vec2::new(1000, 1000));
    world.push_spawn_request(Vec2::new(2000, 2000));
    // The queue is drained at the tick boundary, after the check.
    assert!(tick(&mut world, 0));
    assert_eq!(world.sheep.len(), 2);
    assert_eq!(world.spawn_requests.len(), 0);
    assert!(world.sheep[0].position == Vec2::new(1000, 1000));
    assert!(world.sheep[1].position == Vec2::new(2000, 2000));
    assert!(world.sheep[0].momentum == Vec2::new(0, 0));
    // Now the flock exists and sits inside the pen.
    assert!(tick(&mut world, 0));
}

#[test]
fn tick_detects_an_agent_outside_the_pen() {
    let mut world = World::new(Vec::new(), square_pen(), far_player());
    world.push_spawn_request(Vec2::new(0, 0));
    world.push_spawn_request(Vec2::new(5100, 0));
    tick(&mut world, 0);
    assert!(!tick(&mut world, 0));
}

#[test]
fn zero_dt_tick_is_a_fixed_point_of_positions_and_momenta() {
    let mut world = World::new(
        vec![Barrier::new(Vec2::new(2000, -9000), Vec2::new(2000, 9000))],
        square_pen(),
        // Close enough to exert player avoidance on the flock.
        Player::new(Vec2::new(500, 0)),
    );
    world.push_spawn_request(Vec2::new(0, 0));
    world.push_spawn_request(Vec2::new(1500, 100));
    tick(&mut world, 0);
    let before: Vec<(Vec2, Vec2)> =
        world.sheep.iter().map(|s| (s.position, s.momentum)).collect();
    tick(&mut world, 0);
    for (i, s) in world.sheep.iter().enumerate() {
        assert!(s.position == before[i].0);
        assert!(s.momentum == before[i].1);
    }
}

#[test]
fn ticks_keep_every_momentum_within_its_speed_limit() {
    let mut world = World::new(
        vec![Barrier::new(Vec2::new(2000, -9000), Vec2::new(2000, 9000))],
        square_pen(),
        Player::new(Vec2::new(100, 0)),
    );
    // A tight cluster right next to the player: strong transient forces.
    world.push_spawn_request(Vec2::new(0, 0));
    world.push_spawn_request(Vec2::new(50, 0));
    world.push_spawn_request(Vec2::new(0, 50));
    tick(&mut world, 0);
    for _ in 0..5 {
        tick(&mut world, 1000);
        for s in world.sheep.iter() {
            let len2 = (s.momentum.x as i128) * (s.momentum.x as i128)
                + (s.momentum.y as i128) * (s.momentum.y as i128);
            let ms = s.max_speed.0 as i128;
            assert!(len2 <= ms * ms);
        }
    }
}

#[test]
fn agents_flee_the_player() {
    let mut world = World::new(Vec::new(), square_pen(), Player::new(Vec2::new(-1000, 0)));
    world.push_spawn_request(Vec2::new(0, 0));
    tick(&mut world, 0);
    tick(&mut world, 1000);
    // The only force is player avoidance, pushing along +x.
    assert!(world.sheep[0].position.x > 0);
    assert_eq!(world.sheep[0].position.y, 0);
    assert!(world.sheep[0].momentum.x > 0);
}

#[test]
fn normalize_scales_to_unit_length() {
    assert!(normalize_or_zero(Vec2::new(3000, 4000)) == Vec2::new(600, 800));
    assert!(normalize_or_zero(Vec2::new(0, 0)) == Vec2::new(0, 0));
    assert!(normalize_or_zero(Vec2::new(0, -250)) == Vec2::new(0, -1000));
}

#[test]
fn player_moves_by_clamped_input_over_dt() {
    let mut player = Player::new(Vec2::new(0, 0));
    // Full-speed intent along +x for one second at speed 10: 10 units.
    move_player(&mut player, Vec2::new(7777, 0), 1000);
    assert!(player.position == Vec2::new(10_000, 0));
    // Zero intent: no motion.
    move_player(&mut player, Vec2::new(0, 0), 1000);
    assert!(player.position == Vec2::new(10_000, 0));
}

#[test]
fn player_input_is_reinterpreted_through_the_facing() {
    // Facing turned a quarter: +x intent becomes +y motion.
    let mut player = Player::new(Vec2::new(0, 0));
    player.facing = Rot::new(0, 1000);
    move_player(&mut player, Vec2::new(5000, 0), 1000);
    assert!(player.position == Vec2::new(0, 10_000));
}

#[test]
fn normalize_never_exceeds_unit_length() {
    // A subunit diagonal intent has length sqrt(2); the rounded-up
    // length 2 keeps the normalized vector at or below unit length.
    let u = normalize_or_zero(Vec2::new(1, 1));
    assert!(u == Vec2::new(500, 500));
    let len2 = (u.x as i128) * (u.x as i128) + (u.y as i128) * (u.y as i128);
    assert!(len2 <= 1000i128 * 1000);
}

#[test]
fn player_displacement_never_exceeds_speed_times_dt() {
    // A diagonal subunit intent for one second at speed 10: the player
    // moves about 7.07 units, never the 14.14 a floored normalization
    // would have allowed.
    let mut player = Player::new(Vec2::new(0, 0));
    move_player(&mut player, Vec2::new(1, 1), 1000);
    assert!(player.position == Vec2::new(5000, 5000));
    let dx = player.position.x as i128;
    let dy = player.position.y as i128;
    // |displacement|^2 * SCALE^2 <= (max_speed * dt)^2.
    assert!((dx * dx + dy * dy) * 1_000_000 <= 10_000_000i128 * 10_000_000);
}
