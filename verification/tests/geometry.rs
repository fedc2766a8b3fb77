use herding::barrier::Barrier;
use herding::fixed::{isqrt128, tdiv128, SCALE};
use herding::pen::Pen;
use herding::vec2::{clamp_length, Rot, Vec2};

#[test]
fn isqrt_exact_and_floor() {
    assert_eq!(isqrt128(0), 0);
    assert_eq!(isqrt128(1), 1);
    assert_eq!(isqrt128(24), 4);
    assert_eq!(isqrt128(25), 5);
    assert_eq!(isqrt128(99_980_001), 9_999);
    assert_eq!(isqrt128(u64::MAX as u128), 4_294_967_295);
}

#[test]
fn tdiv_truncates_toward_zero() {
    assert_eq!(tdiv128(7, 2), 3);
    assert_eq!(tdiv128(-7, 2), -3);
    assert_eq!(tdiv128(0, 5), 0);
    assert_eq!(tdiv128(-1, 5), 0);
}

#[test]
fn projection_returns_endpoints_for_endpoint_queries() {
    let b = Barrier::new(Vec2::new(1000, 1000), Vec2::new(3000, 1000));
    let at_a = b.projected_point(Vec2::new(1000, 1000));
    assert!(at_a == Vec2::new(1000, 1000));
    let at_b = b.projected_point(Vec2::new(3000, 1000));
    assert!(at_b == Vec2::new(3000, 1000));
}

#[test]
fn projection_clamps_beyond_endpoints() {
    let b = Barrier::new(Vec2::new(1000, 1000), Vec2::new(3000, 1000));
    // On the infinite line but past vertex_b: clamped to vertex_b.
    let past_b = b.projected_point(Vec2::new(9000, 1000));
    assert!(past_b == Vec2::new(3000, 1000));
    // Past vertex_a on the other side: clamped to vertex_a.
    let past_a = b.projected_point(Vec2::new(-5000, 1000));
    assert!(past_a == Vec2::new(1000, 1000));
}

#[test]
fn projection_drops_perpendicular_foot() {
    let b = Barrier::new(Vec2::new(0, 0), Vec2::new(4000, 0));
    let foot = b.projected_point(Vec2::new(2000, 5000));
    assert!(foot == Vec2::new(2000, 0));
}

#[test]
fn projection_of_degenerate_segment_is_the_point() {
    let b = Barrier::new(Vec2::new(7, 9), Vec2::new(7, 9));
    let r = b.projected_point(Vec2::new(-12345, 67890));
    assert!(r == Vec2::new(7, 9));
}

#[test]
fn axis_aligned_pen_is_a_box_test() {
    // Pen centred at the origin, 10 by 10 world units, angle zero.
    let pen = Pen::new(Vec2::new(0, 0), 10_000, 10_000, Rot::identity());
    // centre.x + width/2 - epsilon: contained.
    assert!(pen.contains(Vec2::new(4_999, 0)));
    // centre.x + width/2 + epsilon: not contained.
    assert!(!pen.contains(Vec2::new(5_001, 0)));
    // Exactly on the boundary: strictly outside.
    assert!(!pen.contains(Vec2::new(5_000, 0)));
    assert!(pen.contains(Vec2::new(0, 0)));
    assert!(pen.contains(Vec2::new(-4_999, 4_999)));
    assert!(!pen.contains(Vec2::new(0, -5_001)));
}

#[test]
fn rotated_pen_contains_in_its_own_frame() {
    // A 20 by 10 pen rotated a quarter turn: its long axis now runs
    // along world y.
    let quarter = Rot::new(0, SCALE);
    let pen = Pen::new(Vec2::new(0, 0), 20_000, 10_000, quarter);
    assert!(pen.contains(Vec2::new(0, 9_000)));
    assert!(!pen.contains(Vec2::new(9_000, 0)));
    assert!(pen.contains(Vec2::new(4_000, 4_000)));
}

#[test]
fn clamp_length_keeps_short_vectors_exactly() {
    let v = Vec2::new(3000, 4000);
    assert!(clamp_length(v, 5000) == v);
    assert!(clamp_length(Vec2::new(0, 0), 0) == Vec2::new(0, 0));
}

#[test]
fn clamp_length_scales_long_vectors() {
    // |(3000, 4000)| == 5000, clamped to 2500: exactly halved.
    let v = Vec2::new(3000, 4000);
    let c = clamp_length(v, 2500);
    assert!(c == Vec2::new(1500, 2000));
    let x = clamp_length(Vec2::new(-3000, 4000), 2500);
    assert!(x == Vec2::new(-1500, 2000));
}