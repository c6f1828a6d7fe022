use kcc::slide::{
    move_and_slide, HitResponse, MoveAndSlide, MoveAndSlideConfig, MoveAndSlideHit, SweepOutcome,
};
use kcc::sweep::{character_sweep, Hit, SurfaceId};
use kcc::vector::{Vec3, ONE};

fn v(x: i64, y: i64, z: i64) -> Vec3 {
    Vec3::new(x, y, z)
}

fn wall_hit(distance: i64, normal: Vec3, epsilon: i64) -> SweepOutcome {
    let hit = Hit { distance, normal, surface: SurfaceId(3) };
    SweepOutcome::Hit(MoveAndSlideHit {
        hit: character_sweep(Some(hit), epsilon).unwrap(),
        response: HitResponse::Slide,
    })
}

#[test]
fn default_config_values() {
    let c = MoveAndSlideConfig::default();
    assert_eq!(c.max_iterations, 4);
    assert_eq!(c.skin_width, 10_000);
    assert_eq!(c.epsilon, 100);
    assert!(c.is_valid());
}

#[test]
fn open_volume_moves_full_distance() {
    let config = MoveAndSlideConfig::default();
    let start = v(0, 0, 0);
    let vel = v(ONE, 0, 0);
    assert!(MoveAndSlide::accepts(&start, &vel, &config, ONE));
    let mut m = MoveAndSlide::new(start, vel, config, ONE);
    let req = m.next_sweep().unwrap();
    assert_eq!(req.origin, start);
    assert_eq!(req.direction, v(ONE, 0, 0));
    assert_eq!(req.distance, ONE + 10_000);
    move_and_slide(&mut m, SweepOutcome::Clear);
    assert!(m.finished);
    assert_eq!(m.translation, v(ONE, 0, 0));
    assert_eq!(m.velocity, vel);
    assert!(m.next_sweep().is_none());
}

#[test]
fn zero_velocity_is_over_before_it_starts() {
    let m = MoveAndSlide::new(v(5, 6, 7), v(0, 0, 0), MoveAndSlideConfig::default(), ONE);
    assert!(m.finished);
    assert!(m.next_sweep().is_none());
    assert_eq!(m.translation, v(5, 6, 7));
}

#[test]
fn zero_delta_time_twice_is_a_no_op() {
    let config = MoveAndSlideConfig::default();
    let start = v(ONE, 2 * ONE, 3 * ONE);
    let vel = v(4 * ONE, 0, -ONE);
    let a = MoveAndSlide::new(start, vel, config, 0);
    // No time to spend: no cast is asked for, so no wall can clip the velocity.
    assert!(a.finished);
    assert!(a.next_sweep().is_none());
    let b = MoveAndSlide::new(a.translation, a.velocity, config, 0);
    assert!(b.next_sweep().is_none());
    assert_eq!(b.translation, start);
    assert_eq!(b.velocity, vel);
}

#[test]
fn head_on_wall_stops_the_move() {
    let config = MoveAndSlideConfig::default();
    let mut m = MoveAndSlide::new(v(0, 0, 0), v(ONE, 0, 0), config, ONE);
    move_and_slide(&mut m, wall_hit(500_000, v(-ONE, 0, 0), config.epsilon));
    assert!(m.finished);
    assert_eq!(m.velocity, v(0, 0, 0));
    assert_eq!(m.translation, v(0, 0, 0));
    assert_eq!(m.hits.len(), 1);
}

#[test]
fn oblique_wall_slides_and_spends_time() {
    let config = MoveAndSlideConfig::default();
    let mut m = MoveAndSlide::new(v(0, 0, 0), v(ONE, 0, ONE), config, ONE);
    assert_eq!(m.next_sweep().unwrap().distance, 1_414_213 + 10_000);
    move_and_slide(&mut m, wall_hit(500_000, v(-ONE, 0, 0), config.epsilon));
    assert!(!m.finished);
    assert_eq!(m.iteration, 1);
    assert_eq!(m.velocity, v(0, 0, ONE));
    // 499_900 safe less 10_000 skin, along (0.707107, 0, 0.707107)
    assert_eq!(m.translation, v(346_411, 0, 346_411));
    assert_eq!(m.remaining_time, 653_589);
    move_and_slide(&mut m, SweepOutcome::Clear);
    assert!(m.finished);
    assert_eq!(m.translation, v(346_411, 0, 346_411 + 653_589));
}

#[test]
fn step_up_overrides_translation_and_time() {
    let config = MoveAndSlideConfig::default();
    let mut m = MoveAndSlide::new(v(0, 0, 0), v(ONE, 0, 0), config, ONE);
    let hit = character_sweep(
        Some(Hit { distance: 300_000, normal: v(-ONE, 0, 0), surface: SurfaceId(9) }),
        config.epsilon,
    )
    .unwrap();
    let outcome = SweepOutcome::Hit(MoveAndSlideHit {
        hit,
        response: HitResponse::SteppedUp { translation: v(400_000, 200_000, 0), consumed_time: 250_000 },
    });
    assert!(m.accepts_outcome(&outcome));
    move_and_slide(&mut m, outcome);
    assert_eq!(m.translation, v(400_000, 200_000, 0));
    assert_eq!(m.remaining_time, 750_000);
    assert_eq!(m.velocity, v(ONE, 0, 0));
    assert!(m.hits.is_empty());
    assert!(!m.finished);
}

#[test]
fn iterations_are_bounded() {
    let config = MoveAndSlideConfig { max_iterations: 1, skin_width: 10_000, epsilon: 100 };
    let mut m = MoveAndSlide::new(v(0, 0, 0), v(ONE, 0, ONE), config, ONE);
    move_and_slide(&mut m, wall_hit(500_000, v(-ONE, 0, 0), config.epsilon));
    assert!(m.finished);
    assert!(m.next_sweep().is_none());
}

#[test]
fn out_of_range_inputs_are_refused() {
    let config = MoveAndSlideConfig::default();
    assert!(!MoveAndSlide::accepts(&v(0, 0, 0), &v(ONE, 0, 0), &config, -1));
    assert!(!MoveAndSlide::accepts(&v(0, 0, 0), &v(i64::MAX, 0, 0), &config, ONE));
    let bad = MoveAndSlideConfig { max_iterations: 4, skin_width: -1, epsilon: 100 };
    assert!(!bad.is_valid());
}
