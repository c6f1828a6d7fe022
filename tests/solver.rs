use kcc::planes::solve_collision_planes;
use kcc::sweep::{character_sweep, safe_distance, Hit, SurfaceId};
use kcc::vector::{isqrt, normalize_or_zero, reject_from, similar_plane, Vec3, ONE};

fn v(x: i64, y: i64, z: i64) -> Vec3 {
    Vec3::new(x, y, z)
}

#[test]
fn safe_distance_keeps_epsilon_clearance() {
    assert_eq!(safe_distance(500_000, 100), 499_900);
    assert_eq!(safe_distance(100, 100), 0);
}

#[test]
fn safe_distance_is_never_negative() {
    assert_eq!(safe_distance(50, 100), 0);
    assert_eq!(safe_distance(0, 100), 0);
    assert_eq!(safe_distance(-20, 100), 0);
}

#[test]
fn character_sweep_passes_misses_through() {
    assert!(character_sweep(None, 100).is_none());
}

#[test]
fn character_sweep_adds_the_safe_distance() {
    let hit = Hit { distance: 250_000, normal: v(0, ONE, 0), surface: SurfaceId(7) };
    let swept = character_sweep(Some(hit), 100).unwrap();
    assert_eq!(swept.safe_distance, 249_900);
    assert_eq!(swept.hit, hit);
}

#[test]
fn isqrt_is_the_floor_root() {
    assert_eq!(isqrt(0), 0);
    assert_eq!(isqrt(15), 3);
    assert_eq!(isqrt(16), 4);
    assert_eq!(isqrt(2_000_000_000_000), 1_414_213);
}

#[test]
fn normalize_scales_to_one() {
    assert_eq!(normalize_or_zero(&v(0, 5, 0)), v(0, ONE, 0));
    assert_eq!(normalize_or_zero(&v(ONE, 0, ONE)), v(707_107, 0, 707_107));
    assert_eq!(normalize_or_zero(&v(0, 0, 0)), v(0, 0, 0));
}

#[test]
fn reject_removes_the_normal_component() {
    let r = reject_from(&v(ONE, 0, -ONE), &v(0, 0, ONE));
    assert_eq!(r, v(ONE, 0, 0));
}

#[test]
fn similarity_threshold() {
    assert!(similar_plane(&v(ONE, 0, 0), &v(ONE, 0, 0)));
    // cos = 0.9995 > 0.999
    assert!(similar_plane(&v(ONE, 0, 0), &v(999_500, 31_615, 0)));
    // cos = 0.998 < 0.999
    assert!(!similar_plane(&v(ONE, 0, 0), &v(998_000, 63_214, 0)));
    assert!(!similar_plane(&v(ONE, 0, 0), &v(0, 0, 0)));
}

#[test]
fn zero_velocity_resolves_to_zero() {
    let hits = vec![v(0, 0, ONE)];
    let r = solve_collision_planes(&v(0, 0, 0), &hits, &v(ONE, 0, 0), 100);
    assert_eq!(r, v(0, 0, 0));
}

#[test]
fn no_hits_keeps_velocity() {
    let r = solve_collision_planes(&v(3 * ONE, 0, 1), &vec![], &v(ONE, 0, 0), 100);
    assert_eq!(r, v(3 * ONE, 0, 1));
}

#[test]
fn single_plane_slides_along_it() {
    let n = v(0, 0, ONE);
    let vel = v(ONE, 0, -ONE);
    let r = solve_collision_planes(&vel, &vec![n], &vel, 100);
    assert_eq!(r, reject_from(&vel, &n));
    assert_eq!(r, v(ONE, 0, 0));
    assert_eq!(r.dot(&n), 0);
}

#[test]
fn single_plane_separating_velocity_is_unchanged() {
    let vel = v(ONE, 0, ONE);
    let r = solve_collision_planes(&vel, &vec![v(0, 0, ONE)], &vel, 100);
    assert_eq!(r, vel);
}

#[test]
fn perpendicular_walls_with_separating_wish_keep_velocity() {
    // Walls facing +x and +z; moving along (1, 0, 1) leaves both.
    let vel = v(ONE, 0, ONE);
    let hits = vec![v(ONE, 0, 0), v(0, 0, ONE)];
    let r = solve_collision_planes(&vel, &hits, &vel, 100);
    assert_eq!(r, vel);
    assert!(r.dot(&hits[0]) >= 0);
    assert!(r.dot(&hits[1]) >= 0);
}

#[test]
fn perpendicular_walls_pin_into_corner() {
    // Moving into the corner formed by walls facing +x and +z.
    let vel = v(-ONE, 0, -ONE);
    let hits = vec![v(ONE, 0, 0), v(0, 0, ONE)];
    let r = solve_collision_planes(&vel, &hits, &vel, 100);
    assert_eq!(r, v(0, 0, 0));
}

#[test]
fn crease_between_wall_and_floor_slides_along_edge() {
    // A wall facing -x met after the floor: motion keeps only its z part.
    let vel = v(ONE, -ONE, ONE);
    let hits = vec![v(0, ONE, 0), v(-ONE, 0, 0)];
    let r = solve_collision_planes(&vel, &hits, &vel, 100);
    assert_eq!(r.x, 0);
    assert_eq!(r.y, 0);
    assert!(r.z > 0);
}

#[test]
fn corner_deadlock_adds_nudge_and_stops() {
    // Sliding along the crease of a wall (facing -x, met last) and the floor
    // runs along a third plane's normal: the solve stops with a push of 0.01
    // out of the wall/floor corner.
    let vel = v(ONE, -ONE, ONE);
    let hits = vec![v(0, ONE, 0), v(0, 0, ONE), v(-ONE, 0, 0)];
    let r = solve_collision_planes(&vel, &hits, &vel, 100);
    assert_eq!(r, v(-7_071, 7_071, ONE));
}

#[test]
fn most_recent_normal_is_resolved_first() {
    let vel = v(ONE, -ONE, ONE);
    let wall_last = solve_collision_planes(&vel, &vec![v(0, ONE, 0), v(-ONE, 0, 0)], &vel, 100);
    let floor_last = solve_collision_planes(&vel, &vec![v(-ONE, 0, 0), v(0, ONE, 0)], &vel, 100);
    assert_eq!(wall_last, v(0, 0, ONE));
    assert_eq!(floor_last, v(0, 0, ONE));
    // Only the most recent plane decides whether the solve starts at all.
    let away_from_last = solve_collision_planes(&vel, &vec![v(-ONE, 0, 0), v(0, -ONE, 0)], &vel, 100);
    assert_eq!(away_from_last, vel);
}

#[test]
fn wish_direction_is_no_third_plane() {
    // The crease of floor and wall runs along the wish direction, which is
    // dropped from the candidates: no corner, no nudge.
    let vel = v(10_000, 0, ONE);
    let hits = vec![v(0, ONE, 0), v(-ONE, 0, 0)];
    let r = solve_collision_planes(&vel, &hits, &vel, 100);
    assert_eq!(r, v(0, 0, ONE));
}

#[test]
fn repeated_similar_planes_are_not_reapplied() {
    let n = v(0, 0, ONE);
    let vel = v(ONE, 0, -ONE);
    let once = solve_collision_planes(&vel, &vec![n], &vel, 100);
    let thrice = solve_collision_planes(&vel, &vec![n, n, n], &vel, 100);
    let near = solve_collision_planes(&vel, &vec![v(0, 20_000, 999_800), n], &vel, 100);
    assert_eq!(thrice, once);
    assert_eq!(near, once);
    assert_eq!(once, v(ONE, 0, 0));
}
