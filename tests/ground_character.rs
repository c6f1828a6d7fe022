use kcc::character::{acceleration, Character, HitClass, PlatformMotion, DEFAULT_WALKABLE_COS};
use kcc::ground::{
    advance_along, is_walkable, plan_step_up, settle_on_ground, step_motion_cast, Ground,
};
use kcc::slide::MoveAndSlideConfig;
use kcc::sweep::{Hit, SurfaceId, SweepHit};
use kcc::vector::{Vec3, ONE};

fn v(x: i64, y: i64, z: i64) -> Vec3 {
    Vec3::new(x, y, z)
}

fn cos_fixed(angle: f64) -> i64 {
    (angle.cos() * ONE as f64) as i64
}

fn up() -> Vec3 {
    v(0, ONE, 0)
}

fn flat_ground(id: u64) -> Ground {
    Ground::new_if_walkable(SurfaceId(id), up(), &up(), cos_fixed(std::f64::consts::FRAC_PI_4)).unwrap()
}

#[test]
fn flat_floor_is_walkable() {
    let limit = cos_fixed(std::f64::consts::FRAC_PI_4);
    assert!(is_walkable(&v(0, ONE, 0), &up(), limit));
}

#[test]
fn boundary_slope_walkable_only_under_ordinary_tolerance() {
    let ordinary = cos_fixed(std::f64::consts::FRAC_PI_4);
    let reduced = cos_fixed(std::f64::consts::FRAC_PI_4 - 1e-4);
    assert_eq!(ordinary, 707_106);
    assert_eq!(reduced, 707_177);
    let slope = v(ONE / 2, ONE / 2, 0);
    // The asymmetry is intended: a surface exactly at the limit is ground,
    // but a step-up may not end on it.
    assert!(is_walkable(&slope, &up(), ordinary));
    assert!(!is_walkable(&slope, &up(), reduced));
}

#[test]
fn walls_and_ceilings_are_not_walkable() {
    let limit = cos_fixed(std::f64::consts::FRAC_PI_4);
    assert!(!is_walkable(&v(ONE, 0, 0), &up(), limit));
    assert!(!is_walkable(&v(0, -ONE, 0), &up(), limit));
    assert!(!is_walkable(&v(0, 0, 0), &up(), limit));
}

#[test]
fn negative_cosine_limit_accepts_steep_surfaces() {
    // 120 degrees: anything but a steep overhang counts.
    let limit = cos_fixed(2.0 * std::f64::consts::FRAC_PI_3);
    assert!(is_walkable(&v(ONE, 0, 0), &up(), limit));
    assert!(!is_walkable(&v(0, -ONE, 0), &up(), limit));
}

#[test]
fn ground_only_from_walkable_normals() {
    let limit = cos_fixed(std::f64::consts::FRAC_PI_4);
    assert!(Ground::new_if_walkable(SurfaceId(1), v(ONE, 0, 0), &up(), limit).is_none());
    let g = Ground::new_if_walkable(SurfaceId(1), up(), &up(), limit).unwrap();
    assert_eq!(g.surface(), SurfaceId(1));
    assert_eq!(g.normal(), up());
}

fn grounded_character() -> Character {
    let mut c = Character::new(up(), MoveAndSlideConfig::default(), cos_fixed(std::f64::consts::FRAC_PI_4));
    c.set_ground(Some(flat_ground(4)));
    c
}

#[test]
fn upward_launch_clears_ground() {
    let mut c = grounded_character();
    c.launch(v(0, ONE, 0));
    assert!(!c.grounded());
    assert_eq!(c.velocity, v(0, ONE, 0));
}

#[test]
fn horizontal_launch_keeps_ground() {
    let mut c = grounded_character();
    c.launch(v(2 * ONE, 0, -ONE));
    assert!(c.grounded());
    assert_eq!(c.velocity, v(2 * ONE, 0, -ONE));
}

#[test]
fn launch_on_slope_follows_the_ground_normal() {
    let limit = cos_fixed(std::f64::consts::FRAC_PI_4);
    let slope = Ground::new_if_walkable(SurfaceId(2), v(600_000, 800_000, 0), &up(), limit).unwrap();
    let mut c = Character::new(up(), MoveAndSlideConfig::default(), cos_fixed(std::f64::consts::FRAC_PI_4));
    c.set_ground(Some(slope));
    c.launch(v(-ONE, 0, 0));
    assert!(c.grounded());
    c.launch(v(ONE, 0, 0));
    assert!(!c.grounded());
}

#[test]
fn jump_cancels_downward_speed() {
    let mut c = grounded_character();
    c.velocity = v(ONE, -5 * ONE, 0);
    c.jump(2 * ONE);
    assert_eq!(c.velocity, v(ONE, 2 * ONE, 0));
    assert!(!c.grounded());
}

#[test]
fn jump_keeps_upward_speed() {
    let mut c = grounded_character();
    c.velocity = v(0, ONE, 0);
    c.jump(2 * ONE);
    assert_eq!(c.velocity, v(0, 3 * ONE, 0));
}

#[test]
fn airborne_character_is_not_grounded() {
    let c = Character::new(up(), MoveAndSlideConfig::default(), cos_fixed(std::f64::consts::FRAC_PI_4));
    assert!(!c.grounded());
    assert_eq!(c.velocity, v(0, 0, 0));
}

#[test]
fn hits_are_classified() {
    let floor = Hit { distance: 0, normal: up(), surface: SurfaceId(5) };
    let wall = Hit { distance: 0, normal: v(-ONE, 0, 0), surface: SurfaceId(6) };
    let air = Character::new(up(), MoveAndSlideConfig::default(), cos_fixed(std::f64::consts::FRAC_PI_4));
    match air.classify_hit(&floor, &None) {
        HitClass::Ground(g) => assert_eq!(g.surface(), SurfaceId(5)),
        other => panic!("expected ground, got {:?}", other),
    }
    assert_eq!(air.classify_hit(&wall, &None), HitClass::Wall);
    assert_eq!(air.classify_hit(&wall, &Some(flat_ground(1))), HitClass::TryStep);
    assert_eq!(grounded_character().classify_hit(&wall, &None), HitClass::TryStep);
}

#[test]
fn ground_probe_only_after_losing_ground() {
    let c = grounded_character();
    assert!(c.needs_ground_probe(&None));
    assert!(!c.needs_ground_probe(&Some(flat_ground(2))));
    let air = Character::new(up(), MoveAndSlideConfig::default(), cos_fixed(std::f64::consts::FRAC_PI_4));
    assert!(!air.needs_ground_probe(&None));
}

#[test]
fn platform_motion_follows_then_inherits() {
    let mut c = grounded_character();
    assert_eq!(c.platform_motion(), PlatformMotion::Follow(SurfaceId(4)));
    c.end_tick();
    c.set_ground(None);
    assert_eq!(c.platform_motion(), PlatformMotion::Inherit(SurfaceId(4)));
    c.inherit_platform_velocity(v(20_000, 0, -10_000), 20_000);
    assert_eq!(c.velocity, v(ONE, 0, -500_000));
    c.end_tick();
    assert_eq!(c.platform_motion(), PlatformMotion::Stay);
}

#[test]
fn step_up_plan_values() {
    let plan = plan_step_up(&v(-ONE, 0, 0), &up(), &v(ONE, 0, 0), 200_000, 300_000, 707_106, 100, 16_666);
    assert_eq!(plan.inward, 88_182);
    assert_eq!(plan.forward, 111_818);
    assert_eq!(plan.motion, v(200_000, 0, 0));
    assert_eq!(plan.move_time, 3_333);
}

#[test]
fn step_up_plan_with_little_motion_left() {
    let plan = plan_step_up(&v(-ONE, 0, 0), &up(), &v(ONE, 0, 0), 10_000, 300_000, 707_106, 100, ONE);
    assert_eq!(plan.forward, 0);
    assert_eq!(plan.motion, v(88_182, 0, 0));
}

#[test]
fn climb_phases() {
    let start = v(0, 0, 0);
    // Lift: a ceiling stops the lift short.
    let ceiling = SweepHit {
        safe_distance: 150_000,
        hit: Hit { distance: 150_100, normal: v(0, -ONE, 0), surface: SurfaceId(8) },
    };
    let top = advance_along(&start, &up(), 400_000, &Some(ceiling));
    assert_eq!(top, v(0, 150_000, 0));
    let line = step_motion_cast(&v(300_000, 0, 400_000));
    assert_eq!(line.direction, v(600_000, 0, 800_000));
    assert_eq!(line.distance, 500_000);
    let ahead = advance_along(&top, &line.direction, line.distance, &None);
    assert_eq!(ahead, v(300_000, 150_000, 400_000));
    let step_top = SweepHit {
        safe_distance: 49_900,
        hit: Hit { distance: 50_000, normal: up(), surface: SurfaceId(10) },
    };
    let limit = cos_fixed(std::f64::consts::FRAC_PI_4 - 1e-4);
    let settled = settle_on_ground(&ahead, &up(), 400_000, &Some(step_top), limit).unwrap();
    assert_eq!(settled.translation, v(300_000, 100_100, 400_000));
    assert_eq!(settled.ground.surface(), SurfaceId(10));
}

#[test]
fn settling_fails_without_walkable_floor() {
    let limit = cos_fixed(std::f64::consts::FRAC_PI_4);
    assert!(settle_on_ground(&v(0, 0, 0), &up(), 100_000, &None, limit).is_none());
    let steep = SweepHit {
        safe_distance: 10,
        hit: Hit { distance: 110, normal: v(ONE / 2, ONE / 2, 0), surface: SurfaceId(1) },
    };
    let reduced = cos_fixed(std::f64::consts::FRAC_PI_4 - 1e-4);
    assert!(settle_on_ground(&v(0, 0, 0), &up(), 100_000, &Some(steep), reduced).is_none());
    assert!(settle_on_ground(&v(0, 0, 0), &up(), 100_000, &Some(steep), limit).is_some());
}

#[test]
fn acceleration_toward_target_speed() {
    // Standing still, wishing along +x at 5 m/s, accelerating at most 2 m/s per tick.
    let a = acceleration(&v(0, 0, 0), &v(3, 0, 0), 20 * ONE, 5 * ONE, 100_000);
    assert_eq!(a, v(2 * ONE, 0, 0));
    // Close to the target: only the gap is added.
    let a = acceleration(&v(4 * ONE, 0, 0), &v(1, 0, 0), 20 * ONE, 5 * ONE, 100_000);
    assert_eq!(a, v(ONE, 0, 0));
    // Already fast enough, or no wish: nothing.
    assert_eq!(acceleration(&v(6 * ONE, 0, 0), &v(1, 0, 0), 20 * ONE, 5 * ONE, 100_000), v(0, 0, 0));
    assert_eq!(acceleration(&v(0, 0, 0), &v(0, 0, 0), 20 * ONE, 5 * ONE, 100_000), v(0, 0, 0));
}

#[test]
fn default_character_walks_up_to_45_degrees() {
    let c = Character::default();
    assert_eq!(c.walkable_cos, DEFAULT_WALKABLE_COS);
    assert_eq!(c.walkable_cos, cos_fixed(std::f64::consts::FRAC_PI_4));
    assert_eq!(c.up, up());
    assert!(!c.grounded());
}

#[test]
fn tiny_jump_on_tilted_up_axis_clears_ground() {
    let tilted = v(600_000, 800_000, 0);
    assert!(tilted.is_unit());
    let mut c = Character::new(tilted, MoveAndSlideConfig::default(), DEFAULT_WALKABLE_COS);
    let g = Ground::new_if_walkable(SurfaceId(3), tilted, &tilted, DEFAULT_WALKABLE_COS).unwrap();
    assert!(c.stands_on(&g));
    c.set_ground(Some(g));
    // The kick rounds to zero, but the jump still points away from the ground.
    c.jump(1);
    assert!(!c.grounded());
    assert_eq!(c.velocity, v(0, 0, 0));
}

#[test]
fn downward_jump_keeps_ground() {
    let mut c = grounded_character();
    c.jump(-ONE);
    assert!(c.grounded());
    assert_eq!(c.velocity, v(0, -ONE, 0));
}

#[test]
fn unit_axis_check() {
    assert!(v(0, ONE, 0).is_unit());
    assert!(!v(0, ONE / 2, 0).is_unit());
    assert!(!v(0, 2 * ONE, 0).is_unit());
}

#[test]
fn steep_ground_is_refused_by_the_character() {
    let c = grounded_character();
    let steep = Ground::new_if_walkable(SurfaceId(1), v(ONE / 2, ONE / 2, 0), &up(), 0).unwrap();
    // Exactly 45 degrees: ground under the ordinary limit.
    assert!(c.stands_on(&steep));
    let wall_ish = Ground::new_if_walkable(SurfaceId(1), v(900_000, 100_000, 0), &up(), 0).unwrap();
    assert!(!c.stands_on(&wall_ish));
}

#[test]
fn gravity_only_while_airborne() {
    let mut air = Character::default();
    air.apply_gravity(20 * ONE, 50_000);
    assert_eq!(air.velocity, v(0, -ONE, 0));
    let mut ground = grounded_character();
    ground.apply_gravity(20 * ONE, 50_000);
    assert_eq!(ground.velocity, v(0, 0, 0));
}

#[test]
fn acceleration_limit_follows_ground_state() {
    assert_eq!(grounded_character().max_acceleration(100, 40), 100);
    assert_eq!(Character::default().max_acceleration(100, 40), 40);
}

#[test]
fn add_velocity_keeps_ground() {
    let mut c = grounded_character();
    c.add_velocity(&v(0, 3 * ONE, 0));
    assert_eq!(c.velocity, v(0, 3 * ONE, 0));
    assert!(c.grounded());
}

#[test]
fn negative_acceleration_limit_pushes_back() {
    // A negative limit turns the step against the wish direction.
    let a = acceleration(&v(0, 0, 0), &v(1, 0, 0), -20 * ONE, 5 * ONE, 100_000);
    assert_eq!(a, v(-2 * ONE, 0, 0));
    // A negative target is already met by a mover at rest.
    assert_eq!(acceleration(&v(0, 0, 0), &v(1, 0, 0), 20 * ONE, -ONE, 100_000), v(0, 0, 0));
}
