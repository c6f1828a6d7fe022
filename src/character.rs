//! Per-mover state and the decisions of a simulation tick around the solver.
use vstd::prelude::*;
use crate::ground::{is_walkable, walkable, Ground};
use crate::slide::{MoveAndSlideConfig, MAX_DELTA_TIME};
use crate::sweep::{Hit, SurfaceId};
use crate::vector::{
    div_trunc, dot, is_direction, is_small, is_unit, lemma_components_bound_len, len_sq, lemma_div_trunc_le, lemma_len_sq_nonneg,
    lemma_mul_bound, normalize, normalize_or_zero, scale_div, vadd, within, zero, Vec3, V3,
    MAX_SPEED, ONE,
};

verus! {

/// Largest value an `i64` component may reach.
pub open spec fn i64_room() -> int {
    i64::MAX as int
}

/// The ground left after an impulse: cleared when the impulse points away
/// from the ground normal, kept otherwise.
pub open spec fn ground_after_launch(ground: Option<Ground>, impulse: V3) -> Option<Ground> {
    match ground {
        Some(g) => if dot(g@.normal, impulse) > 0 {
            None
        } else {
            ground
        },
        None => None,
    }
}

/// The ground left after a jump whose speed along `up` is `speed`: cleared
/// when the jump points away from the ground normal, kept otherwise.
pub open spec fn ground_after_jump(ground: Option<Ground>, up: V3, speed: int) -> Option<Ground> {
    match ground {
        Some(g) => if dot(g@.normal, up) * speed > 0 {
            None
        } else {
            ground
        },
        None => None,
    }
}

/// Cosine of 45 degrees in fixed point, rounded down: the default walkable limit.
pub const DEFAULT_WALKABLE_COS: i64 = 707_106;

/// A mover: its velocity, its contact with the ground, and its tunables.
pub struct Character {
    pub velocity: Vec3,
    /// Current ground contact; `None` while airborne.
    pub ground: Option<Ground>,
    /// The ground contact of the previous tick.
    pub previous_ground: Option<Ground>,
    /// Unit up axis.
    pub up: Vec3,
    pub config: MoveAndSlideConfig,
    /// Cosine (fixed point) of the steepest slope that counts as ground.
    pub walkable_cos: i64,
}

/// What a tick does about the surface the mover stands or stood on.
#[derive(Clone, Copy, Debug, PartialEq, Eq, Structural)]
pub enum PlatformMotion {
    /// Still on this surface: follow its motion.
    Follow(SurfaceId),
    /// Just left this surface: take on its velocity.
    Inherit(SurfaceId),
    /// Neither: nothing to do.
    Stay,
}

/// How the hit hook treats one hit of the slide loop.
#[derive(Clone, Copy, Debug, PartialEq, Eq, Structural)]
pub enum HitClass {
    /// Walkable: the mover now stands on this ground; slide along it.
    Ground(Ground),
    /// A wall met while grounded: try to step up onto it, slide if that fails.
    TryStep,
    /// A wall met in the air: slide along it.
    Wall,
}

impl Character {
    /// A ground contact this mover may stand on: well formed and walkable
    /// under its up axis and limit.
    pub open spec fn can_stand_on(&self, g: Ground) -> bool {
        g.wf() && walkable(g@.normal, self.up@, self.walkable_cos as int)
    }

    pub open spec fn wf(&self) -> bool {
        &&& is_unit(self.up@)
        &&& self.config.wf()
        &&& -ONE <= self.walkable_cos <= ONE
        &&& (self.ground is Some ==> self.can_stand_on(self.ground->0))
        &&& (self.previous_ground is Some ==> self.can_stand_on(self.previous_ground->0))
    }

    /// A resting, airborne mover with up axis `up`, standing on slopes whose
    /// angle to `up` has a cosine above `walkable_cos / ONE`.
    pub fn new(up: Vec3, config: MoveAndSlideConfig, walkable_cos: i64) -> (r: Character)
        requires
            is_unit(up@),
            config.wf(),
            -ONE <= walkable_cos <= ONE,
        ensures
            r.wf(),
            r.velocity@ == zero(),
            r.ground is None,
            r.previous_ground is None,
            r.up == up,
            r.config == config,
            r.walkable_cos == walkable_cos,
    {
        Character {
            velocity: Vec3::zero(),
            ground: None,
            previous_ground: None,
            up,
            config,
            walkable_cos,
        }
    }

    /// Whether this mover may stand on `g`.
    pub fn stands_on(&self, g: &Ground) -> (r: bool)
        requires
            self.wf(),
            g.wf(),
        ensures
            r == self.can_stand_on(*g),
    {
        is_walkable(&g.normal(), &self.up, self.walkable_cos)
    }

    /// Returns `true` if the mover stands on the ground.
    pub fn grounded(&self) -> (r: bool)
        ensures
            r == self.ground is Some,
    {
        self.ground.is_some()
    }

    /// Adds `impulse` to the velocity, clearing the ground when the impulse
    /// points away from the ground normal.
    pub fn launch(&mut self, impulse: Vec3)
        requires
            old(self).wf(),
            is_small(impulse@),
            within(vadd(old(self).velocity@, impulse@), i64_room()),
        ensures
            final(self).wf(),
            final(self).velocity@ == vadd(old(self).velocity@, impulse@),
            final(self).ground == ground_after_launch(old(self).ground, impulse@),
            final(self).previous_ground == old(self).previous_ground,
            final(self).up == old(self).up,
            final(self).config == old(self).config,
            final(self).walkable_cos == old(self).walkable_cos,
    {
        if let Some(ground) = self.ground {
            let n = ground.normal();
            if n.dot(&impulse) > 0 {
                self.ground = None;
            }
        }
        self.velocity = Vec3 {
            x: self.velocity.x + impulse.x,
            y: self.velocity.y + impulse.y,
            z: self.velocity.z + impulse.z,
        };
    }

    /// Launches along the up axis with speed `impulse`, first cancelling any
    /// downward speed. The ground is cleared when the jump points away from
    /// it, judged on the jump speed itself, before the kick is rounded.
    pub fn jump(&mut self, impulse: i64)
        requires
            old(self).wf(),
            within(old(self).velocity@, MAX_SPEED as int),
            -MAX_SPEED <= impulse <= MAX_SPEED,
        ensures
            final(self).wf(),
            ({
                let down = div_trunc(dot(old(self).velocity@, old(self).up@), ONE as int);
                let down = if down < 0 {
                    down
                } else {
                    0
                };
                let speed = impulse - down;
                &&& final(self).velocity@ == vadd(
                    old(self).velocity@,
                    scale_div(old(self).up@, speed, ONE as int),
                )
                &&& final(self).ground == ground_after_jump(old(self).ground, old(self).up@, speed)
            }),
            final(self).previous_ground == old(self).previous_ground,
            final(self).up == old(self).up,
            final(self).config == old(self).config,
            final(self).walkable_cos == old(self).walkable_cos,
    {
        let ghost o: int = ONE as int;
        proof {
            lemma_mul_bound(self.velocity.x as int, self.up.x as int, MAX_SPEED as int, o);
            lemma_mul_bound(self.velocity.y as int, self.up.y as int, MAX_SPEED as int, o);
            lemma_mul_bound(self.velocity.z as int, self.up.z as int, MAX_SPEED as int, o);
        }
        let along = self.velocity.dot(&self.up);
        proof {
            lemma_div_trunc_le(along as int, o, 3 * MAX_SPEED);
        }
        let speed_up = crate::vector::div_toward_zero(along, ONE as i128) as i64;
        let down = if speed_up < 0 {
            speed_up
        } else {
            0
        };
        let k = impulse - down;
        if let Some(ground) = self.ground {
            let n = ground.normal();
            proof {
                lemma_components_bound_len(n@, o);
            }
            let gd = n.dot(&self.up);
            proof {
                lemma_sign_product(gd as int, k as int);
            }
            if (gd > 0 && k > 0) || (gd < 0 && k < 0) {
                self.ground = None;
            }
        }
        proof {
            lemma_mul_bound(self.up.x as int, k as int, o, 4 * MAX_SPEED);
            lemma_mul_bound(self.up.y as int, k as int, o, 4 * MAX_SPEED);
            lemma_mul_bound(self.up.z as int, k as int, o, 4 * MAX_SPEED);
            lemma_div_trunc_le((self.up.x as int) * (k as int), o, 4 * MAX_SPEED);
            lemma_div_trunc_le((self.up.y as int) * (k as int), o, 4 * MAX_SPEED);
            lemma_div_trunc_le((self.up.z as int) * (k as int), o, 4 * MAX_SPEED);
        }
        let kick = Vec3 {
            x: crate::vector::div_toward_zero((self.up.x as i128) * (k as i128), ONE as i128)
                as i64,
            y: crate::vector::div_toward_zero((self.up.y as i128) * (k as i128), ONE as i128)
                as i64,
            z: crate::vector::div_toward_zero((self.up.z as i128) * (k as i128), ONE as i128)
                as i64,
        };
        self.velocity = Vec3 {
            x: self.velocity.x + kick.x,
            y: self.velocity.y + kick.y,
            z: self.velocity.z + kick.z,
        };
    }

    /// Adds gravity for `delta_time` while airborne: the velocity loses
    /// `gravity * delta_time` along the up axis. A grounded mover is unchanged.
    pub fn apply_gravity(&mut self, gravity: i64, delta_time: i64)
        requires
            old(self).wf(),
            within(old(self).velocity@, MAX_SPEED as int),
            -MAX_SPEED <= gravity <= MAX_SPEED,
            0 <= delta_time <= MAX_DELTA_TIME,
        ensures
            final(self).wf(),
            old(self).ground is Some ==> final(self).velocity == old(self).velocity,
            old(self).ground is None ==> final(self).velocity@ == vadd(
                old(self).velocity@,
                scale_div(
                    old(self).up@,
                    -div_trunc(gravity * delta_time, ONE as int),
                    ONE as int,
                ),
            ),
            final(self).ground == old(self).ground,
            final(self).previous_ground == old(self).previous_ground,
            final(self).up == old(self).up,
            final(self).config == old(self).config,
            final(self).walkable_cos == old(self).walkable_cos,
    {
        if self.ground.is_some() {
            return;
        }
        let ghost o: int = ONE as int;
        let ghost t: int = 6_000_000_000_000;
        proof {
            lemma_mul_bound(gravity as int, delta_time as int, MAX_SPEED as int, MAX_DELTA_TIME as int);
            lemma_div_trunc_le((gravity as int) * (delta_time as int), o, t);
        }
        let fall = crate::vector::div_toward_zero((gravity as i128) * (delta_time as i128), ONE as i128);
        let k = -fall;
        proof {
            lemma_mul_bound(self.up.x as int, k as int, o, t);
            lemma_mul_bound(self.up.y as int, k as int, o, t);
            lemma_mul_bound(self.up.z as int, k as int, o, t);
            lemma_div_trunc_le((self.up.x as int) * (k as int), o, t);
            lemma_div_trunc_le((self.up.y as int) * (k as int), o, t);
            lemma_div_trunc_le((self.up.z as int) * (k as int), o, t);
        }
        let dx = crate::vector::div_toward_zero((self.up.x as i128) * k, ONE as i128) as i64;
        let dy = crate::vector::div_toward_zero((self.up.y as i128) * k, ONE as i128) as i64;
        let dz = crate::vector::div_toward_zero((self.up.z as i128) * k, ONE as i128) as i64;
        self.velocity = Vec3 {
            x: self.velocity.x + dx,
            y: self.velocity.y + dy,
            z: self.velocity.z + dz,
        };
    }

    /// Adds `dv` to the velocity; the ground contact is unchanged.
    pub fn add_velocity(&mut self, dv: &Vec3)
        requires
            old(self).wf(),
            within(vadd(old(self).velocity@, dv@), i64_room()),
        ensures
            final(self).wf(),
            final(self).velocity@ == vadd(old(self).velocity@, dv@),
            final(self).ground == old(self).ground,
            final(self).previous_ground == old(self).previous_ground,
            final(self).up == old(self).up,
            final(self).config == old(self).config,
            final(self).walkable_cos == old(self).walkable_cos,
    {
        self.velocity = Vec3 {
            x: self.velocity.x + dv.x,
            y: self.velocity.y + dv.y,
            z: self.velocity.z + dv.z,
        };
    }

    /// The acceleration limit of this tick: the ground one while grounded,
    /// the air one while airborne.
    pub fn max_acceleration(&self, ground: i64, air: i64) -> (r: i64)
        ensures
            r == if self.ground is Some {
                ground
            } else {
                air
            },
    {
        if self.ground.is_some() {
            ground
        } else {
            air
        }
    }

    /// How the hit hook treats a hit with normal `normal`, given the ground
    /// found so far in this tick.
    pub fn classify_hit(&self, hit: &Hit, new_ground: &Option<Ground>) -> (r: HitClass)
        requires
            self.wf(),
            is_direction(hit.normal@),
        ensures
            walkable(hit.normal@, self.up@, self.walkable_cos as int) ==> r is Ground
                && r->0@.surface == hit.surface && r->0@.normal == hit.normal@
                && self.can_stand_on(r->0),
            !walkable(hit.normal@, self.up@, self.walkable_cos as int) ==> r == if self.ground
                is Some
                || new_ground is Some {
                HitClass::TryStep
            } else {
                HitClass::Wall
            },
    {
        match Ground::new_if_walkable(hit.surface, hit.normal, &self.up, self.walkable_cos) {
            Some(g) => HitClass::Ground(g),
            None => if self.ground.is_some() || new_ground.is_some() {
                HitClass::TryStep
            } else {
                HitClass::Wall
            },
        }
    }

    /// Whether the tick ends with a downward probe for ground: the mover stood
    /// on ground before the tick and the tick found none.
    pub fn needs_ground_probe(&self, new_ground: &Option<Ground>) -> (r: bool)
        ensures
            r == (self.ground is Some && new_ground is None),
    {
        self.ground.is_some() && new_ground.is_none()
    }

    /// Ends the tick's ground handling with the ground it found.
    pub fn set_ground(&mut self, new_ground: Option<Ground>)
        requires
            old(self).wf(),
            new_ground is Some ==> old(self).can_stand_on(new_ground->0),
        ensures
            final(self).wf(),
            final(self).ground == new_ground,
            final(self).previous_ground == old(self).previous_ground,
            final(self).velocity == old(self).velocity,
            final(self).up == old(self).up,
            final(self).config == old(self).config,
    {
        self.ground = new_ground;
    }

    /// What to do about moving platforms this tick.
    pub fn platform_motion(&self) -> (r: PlatformMotion)
        ensures
            self.ground is Some ==> r == PlatformMotion::Follow(self.ground->0@.surface),
            self.ground is None && self.previous_ground is Some ==> r == PlatformMotion::Inherit(
                self.previous_ground->0@.surface,
            ),
            self.ground is None && self.previous_ground is None ==> r == PlatformMotion::Stay,
    {
        match (self.ground, self.previous_ground) {
            (Some(g), _) => PlatformMotion::Follow(g.surface()),
            (None, Some(p)) => PlatformMotion::Inherit(p.surface()),
            (None, None) => PlatformMotion::Stay,
        }
    }

    /// Takes on the velocity of a platform that moved by `platform_delta`
    /// over `delta_time`.
    pub fn inherit_platform_velocity(&mut self, platform_delta: Vec3, delta_time: i64)
        requires
            old(self).wf(),
            within(old(self).velocity@, MAX_SPEED as int),
            within(platform_delta@, MAX_SPEED as int),
            0 < delta_time <= MAX_DELTA_TIME,
            within(
                vadd(old(self).velocity@, scale_div(platform_delta@, ONE as int, delta_time as int)),
                i64_room(),
            ),
        ensures
            final(self).wf(),
            final(self).velocity@ == vadd(
                old(self).velocity@,
                scale_div(platform_delta@, ONE as int, delta_time as int),
            ),
            final(self).ground == old(self).ground,
            final(self).previous_ground == old(self).previous_ground,
            final(self).up == old(self).up,
    {
        let ghost o: int = ONE as int;
        proof {
            lemma_mul_bound(platform_delta.x as int, o, MAX_SPEED as int, o);
            lemma_mul_bound(platform_delta.y as int, o, MAX_SPEED as int, o);
            lemma_mul_bound(platform_delta.z as int, o, MAX_SPEED as int, o);
            lemma_div_trunc_le((platform_delta.x as int) * o, delta_time as int, MAX_SPEED * o);
            lemma_div_trunc_le((platform_delta.y as int) * o, delta_time as int, MAX_SPEED * o);
            lemma_div_trunc_le((platform_delta.z as int) * o, delta_time as int, MAX_SPEED * o);
        }
        let dt = delta_time as i128;
        let vx = crate::vector::div_toward_zero((platform_delta.x as i128) * (ONE as i128), dt);
        let vy = crate::vector::div_toward_zero((platform_delta.y as i128) * (ONE as i128), dt);
        let vz = crate::vector::div_toward_zero((platform_delta.z as i128) * (ONE as i128), dt);
        self.velocity = Vec3 {
            x: self.velocity.x + vx as i64,
            y: self.velocity.y + vy as i64,
            z: self.velocity.z + vz as i64,
        };
    }

    /// Records this tick's ground as the previous one, at the end of the tick.
    pub fn end_tick(&mut self)
        requires
            old(self).wf(),
        ensures
            final(self).wf(),
            final(self).previous_ground == old(self).ground,
            final(self).ground == old(self).ground,
            final(self).velocity == old(self).velocity,
            final(self).up == old(self).up,
            final(self).config == old(self).config,
    {
        self.previous_ground = self.ground;
    }
}

impl Default for Character {
    /// At rest and airborne, with the y axis up, the default loop tunables
    /// and slopes up to 45 degrees walkable.
    fn default() -> (r: Self)
        ensures
            r.wf(),
            r.velocity@ == zero(),
            r.ground is None,
            r.previous_ground is None,
            r.up@ == crate::vector::v3(0, ONE as int, 0),
            r.config == (MoveAndSlideConfig { max_iterations: 4, skin_width: 10_000, epsilon: 100 }),
            r.walkable_cos == DEFAULT_WALKABLE_COS,
    {
        Character::new(Vec3::new(0, ONE, 0), MoveAndSlideConfig::default(), DEFAULT_WALKABLE_COS)
    }
}

/// The sign of a product.
proof fn lemma_sign_product(a: int, b: int)
    ensures
        (a * b > 0) <==> ((a > 0 && b > 0) || (a < 0 && b < 0)),
{
    if a > 0 && b > 0 {
        assert(a * b > 0) by (nonlinear_arith)
            requires
                a > 0,
                b > 0,
        ;
    } else if a < 0 && b < 0 {
        assert(a * b > 0) by (nonlinear_arith)
            requires
                a < 0,
                b < 0,
        ;
    } else {
        assert(a * b <= 0) by (nonlinear_arith)
            requires
                !((a > 0 && b > 0) || (a < 0 && b < 0)),
        ;
    }
}

/// An impulse clears the ground exactly when it points away from the ground
/// normal.
pub proof fn lemma_launch_clears_ground_iff(ground: Ground, impulse: V3)
    ensures
        ground_after_launch(Some(ground), impulse) is None <==> dot(ground@.normal, impulse) > 0,
        ground_after_launch(Some(ground), impulse) is Some ==> ground_after_launch(
            Some(ground),
            impulse,
        ) == Some(ground),
{
}

/// A jump with upward speed off ground that is walkable under a limit of at
/// most 90 degrees always clears the ground.
pub proof fn lemma_jump_clears_walkable_ground(ground: Ground, up: V3, cos_limit: int, speed: int)
    requires
        0 <= cos_limit,
        walkable(ground@.normal, up, cos_limit),
        speed > 0,
    ensures
        ground_after_jump(Some(ground), up, speed) is None,
{
    let d = dot(ground@.normal, up);
    assert(d * speed > 0) by (nonlinear_arith)
        requires
            (ONE as int) * d > 0,
            speed > 0,
    ;
}

/// On flat ground (normal along the up axis) a horizontal impulse keeps the
/// mover grounded.
pub proof fn lemma_horizontal_launch_keeps_ground(ground: Ground, up: V3, impulse: V3)
    requires
        ground@.normal == up,
        dot(up, impulse) == 0,
    ensures
        ground_after_launch(Some(ground), impulse) == Some(ground),
{
}

/// The speed change that moves `velocity` toward `target_speed` along the
/// wish `direction`, by at most `max_acceleration * delta`; zero for no
/// direction or when already fast enough.
pub open spec fn acceleration_of(
    velocity: V3,
    direction: V3,
    max_acceleration: int,
    target_speed: int,
    delta: int,
) -> V3 {
    if len_sq(direction) == 0 {
        zero()
    } else {
        let dir = normalize(direction);
        let current = div_trunc(dot(velocity, dir), ONE as int);
        let step = div_trunc(max_acceleration * delta, ONE as int);
        if current >= target_speed {
            zero()
        } else {
            let speed = if target_speed - current < step {
                target_speed - current
            } else {
                step
            };
            scale_div(dir, speed, ONE as int)
        }
    }
}

/// Acceleration toward `target_speed` along `direction`, capped at
/// `max_acceleration * delta` per tick.
pub fn acceleration(
    velocity: &Vec3,
    direction: &Vec3,
    max_acceleration: i64,
    target_speed: i64,
    delta: i64,
) -> (r: Vec3)
    requires
        within(velocity@, MAX_SPEED as int),
        within(direction@, MAX_SPEED as int),
        -MAX_SPEED <= max_acceleration <= MAX_SPEED,
        -MAX_SPEED <= target_speed <= MAX_SPEED,
        0 <= delta <= MAX_DELTA_TIME,
    ensures
        r@ == acceleration_of(
            velocity@,
            direction@,
            max_acceleration as int,
            target_speed as int,
            delta as int,
        ),
{
    let ghost o: int = ONE as int;
    proof {
        crate::vector::lemma_components_bound_len(direction@, MAX_SPEED as int);
        lemma_len_sq_nonneg(direction@);
        assert(3 * ((MAX_SPEED as int) * (MAX_SPEED as int)) <= 1_000_000_000_000_000_000_000_000);
    }
    if direction.length_squared() == 0 {
        return Vec3::zero();
    }
    let dir = normalize_or_zero(direction);
    proof {
        lemma_mul_bound(velocity.x as int, dir.x as int, MAX_SPEED as int, o);
        lemma_mul_bound(velocity.y as int, dir.y as int, MAX_SPEED as int, o);
        lemma_mul_bound(velocity.z as int, dir.z as int, MAX_SPEED as int, o);
    }
    let along = velocity.dot(&dir);
    proof {
        lemma_div_trunc_le(along as int, o, 3 * MAX_SPEED);
        lemma_mul_bound(max_acceleration as int, delta as int, MAX_SPEED as int, MAX_DELTA_TIME as int);
        lemma_div_trunc_le((max_acceleration as int) * (delta as int), o, 6_000_000_000_000);
    }
    let current = crate::vector::div_toward_zero(along, ONE as i128) as i64;
    let step = crate::vector::div_toward_zero(
        (max_acceleration as i128) * (delta as i128),
        ONE as i128,
    ) as i64;
    if current >= target_speed {
        return Vec3::zero();
    }
    let speed = if target_speed - current < step {
        target_speed - current
    } else {
        step
    };
    proof {
        lemma_mul_bound(dir.x as int, speed as int, o, 6_000_000_000_000_000_000);
        lemma_mul_bound(dir.y as int, speed as int, o, 6_000_000_000_000_000_000);
        lemma_mul_bound(dir.z as int, speed as int, o, 6_000_000_000_000_000_000);
        lemma_div_trunc_le((dir.x as int) * (speed as int), o, 6_000_000_000_000_000_000);
        lemma_div_trunc_le((dir.y as int) * (speed as int), o, 6_000_000_000_000_000_000);
        lemma_div_trunc_le((dir.z as int) * (speed as int), o, 6_000_000_000_000_000_000);
    }
    Vec3 {
        x: crate::vector::div_toward_zero((dir.x as i128) * (speed as i128), ONE as i128) as i64,
        y: crate::vector::div_toward_zero((dir.y as i128) * (speed as i128), ONE as i128) as i64,
        z: crate::vector::div_toward_zero((dir.z as i128) * (speed as i128), ONE as i128) as i64,
    }
}

} // verus!
