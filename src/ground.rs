//! Ground classification, settling onto ground, and the step-up climb.
//!
//! Walkability compares the angle between a surface normal and the mover's up
//! axis with a limit given by its cosine in fixed point: a surface is walkable
//! when the cosine of that angle exceeds `cos_limit / ONE`.
use vstd::prelude::*;
use crate::slide::{scaled_offset, MAX_DELTA_TIME, MAX_TRAVEL, WORLD_LIMIT};
use crate::sweep::{SurfaceId, SweepHit};
use crate::vector::{
    dot, floor_sqrt, is_direction, isqrt, len_sq, lemma_components_bound_len, lemma_len_sq_nonneg,
    lemma_mul_bound, normalize, normalize_or_zero, reject, reject_from, scale_div, vadd, vsub,
    within, Vec3, V3, ONE,
};

verus! {

/// Pi in fixed point.
pub const PI: i64 = 3_141_593;

/// `cos(angle(normal, up)) > cos_limit / ONE`, compared exactly on squares:
/// `ONE * dot(n, up) > cos_limit * |n| * |up|`. A zero vector has no angle
/// and is never walkable.
pub open spec fn walkable(normal: V3, up: V3, cos_limit: int) -> bool {
    let d = (ONE as int) * dot(normal, up);
    let r = (cos_limit * cos_limit) * (len_sq(normal) * len_sq(up));
    &&& len_sq(normal) > 0
    &&& len_sq(up) > 0
    &&& if cos_limit >= 0 {
        d > 0 && d * d > r
    } else {
        d >= 0 || d * d < r
    }
}

/// Whether a surface with this normal counts as ground under `up`.
pub fn is_walkable(normal: &Vec3, up: &Vec3, cos_limit: i64) -> (r: bool)
    requires
        is_direction(normal@),
        is_direction(up@),
        -ONE <= cos_limit <= ONE,
    ensures
        r == walkable(normal@, up@, cos_limit as int),
{
    let ghost o: int = ONE as int;
    proof {
        lemma_components_bound_len(normal@, o);
        lemma_components_bound_len(up@, o);
        lemma_len_sq_nonneg(normal@);
        lemma_len_sq_nonneg(up@);
        lemma_mul_bound(normal.x as int, up.x as int, o, o);
        lemma_mul_bound(normal.y as int, up.y as int, o, o);
        lemma_mul_bound(normal.z as int, up.z as int, o, o);
    }
    let nn = normal.length_squared();
    let uu = up.length_squared();
    if nn == 0 || uu == 0 {
        return false;
    }
    let dd = normal.dot(up);
    proof {
        lemma_mul_bound(dd as int, o, 3_000_000_000_000, o);
        lemma_mul_bound(
            (dd as int) * o,
            (dd as int) * o,
            3_000_000_000_000_000_000,
            3_000_000_000_000_000_000,
        );
        lemma_mul_bound(cos_limit as int, cos_limit as int, o, o);
        lemma_mul_bound(nn as int, uu as int, 3_000_000_000_000, 3_000_000_000_000);
        lemma_mul_bound(
            (cos_limit as int) * (cos_limit as int),
            (nn as int) * (uu as int),
            1_000_000_000_000,
            9_000_000_000_000_000_000_000_000,
        );
    }
    let d = dd * (ONE as i128);
    let c = cos_limit as i128;
    let r = (c * c) * (nn * uu);
    if cos_limit >= 0 {
        d > 0 && d * d > r
    } else {
        d >= 0 || d * d < r
    }
}

/// A walkable surface is still walkable under any looser limit.
pub proof fn lemma_walkable_monotone(normal: V3, up: V3, strict: int, loose: int)
    requires
        -(ONE as int) <= loose <= strict <= ONE,
        walkable(normal, up, strict),
    ensures
        walkable(normal, up, loose),
{
    let d = (ONE as int) * dot(normal, up);
    let m = len_sq(normal) * len_sq(up);
    assert(m > 0) by (nonlinear_arith)
        requires
            len_sq(normal) > 0,
            len_sq(up) > 0,
            m == len_sq(normal) * len_sq(up),
    ;
    if loose >= 0 {
        assert(loose * loose <= strict * strict) by (nonlinear_arith)
            requires
                0 <= loose <= strict,
        ;
        assert((loose * loose) * m <= (strict * strict) * m) by (nonlinear_arith)
            requires
                loose * loose <= strict * strict,
                m > 0,
        ;
    } else if strict < 0 {
        if d < 0 {
            assert(strict * strict <= loose * loose) by (nonlinear_arith)
                requires
                    loose <= strict < 0,
            ;
            assert((strict * strict) * m <= (loose * loose) * m) by (nonlinear_arith)
                requires
                    strict * strict <= loose * loose,
                    m > 0,
            ;
        }
    }
}

/// The surface a mover stands on. Only [`Ground::new_if_walkable`] makes one.
#[derive(Clone, Copy, Debug, PartialEq, Eq, Structural)]
pub struct Ground {
    surface: SurfaceId,
    normal: Vec3,
}

/// The model of a ground contact.
pub struct GroundView {
    pub surface: SurfaceId,
    pub normal: V3,
}

impl View for Ground {
    type V = GroundView;

    closed spec fn view(&self) -> GroundView {
        GroundView { surface: self.surface, normal: self.normal@ }
    }
}

impl Ground {
    pub closed spec fn wf(&self) -> bool {
        is_direction(self.normal@)
    }

    /// A ground contact on `surface`, if its `normal` is walkable under `up`.
    pub fn new_if_walkable(surface: SurfaceId, normal: Vec3, up: &Vec3, cos_limit: i64) -> (r:
        Option<Ground>)
        requires
            is_direction(normal@),
            is_direction(up@),
            -ONE <= cos_limit <= ONE,
        ensures
            r is Some <==> walkable(normal@, up@, cos_limit as int),
            r is Some ==> r->0@ == (GroundView { surface, normal: normal@ }),
            r is Some ==> r->0.wf(),
    {
        if is_walkable(&normal, up, cos_limit) {
            Some(Ground { surface, normal })
        } else {
            None
        }
    }

    pub fn surface(&self) -> (r: SurfaceId)
        ensures
            r == self@.surface,
    {
        self.surface
    }

    pub fn normal(&self) -> (r: Vec3)
        ensures
            r@ == self@.normal,
            self.wf() ==> is_direction(r@),
    {
        self.normal
    }
}

/// Distance stepped into the wall: `radius * (1 - cos_limit)`, which makes up
/// for the drift of a rounded collider's contact normal, plus `epsilon * pi`.
pub open spec fn step_inward(radius: int, cos_limit: int, epsilon: int) -> int {
    radius * ((ONE as int) - cos_limit) / (ONE as int) + epsilon * (PI as int) / (ONE as int)
}

/// The motion of a step-up attempt and the time it takes.
#[derive(Clone, Copy, Debug, PartialEq, Eq, Structural)]
pub struct StepUpPlan {
    /// Horizontal motion to attempt at the top of the lift.
    pub motion: Vec3,
    /// Forward distance, after giving up the inward part.
    pub forward: i64,
    /// Distance pushed into the wall.
    pub inward: i64,
    /// Time the step consumes: `(forward + inward) * delta_time`.
    pub move_time: i64,
}

/// Plans a step-up against a wall hit with normal `hit_normal` while moving
/// along the unit `direction` with `step_forward` of motion left.
///
/// The mover steps `inward` into the wall (against the wall normal with its
/// up part removed) and that much less forward.
pub fn plan_step_up(
    hit_normal: &Vec3,
    up: &Vec3,
    direction: &Vec3,
    step_forward: i64,
    radius: i64,
    cos_limit: i64,
    epsilon: i64,
    delta_time: i64,
) -> (r: StepUpPlan)
    requires
        is_direction(hit_normal@),
        is_direction(up@),
        is_direction(direction@),
        0 <= step_forward <= MAX_TRAVEL,
        0 <= radius <= MAX_TRAVEL,
        -ONE <= cos_limit <= ONE,
        0 <= epsilon <= ONE,
        0 <= delta_time <= MAX_DELTA_TIME,
    ensures
        r.inward == step_inward(radius as int, cos_limit as int, epsilon as int),
        r.forward == if step_forward - r.inward > 0 {
            step_forward - r.inward
        } else {
            0
        },
        r.motion@ == vsub(
            scale_div(direction@, r.forward as int, ONE as int),
            scale_div(normalize(reject(hit_normal@, up@)), r.inward as int, ONE as int),
        ),
        r.move_time == (r.forward + r.inward) * delta_time / (ONE as int),
{
    proof {
        lemma_mul_bound(radius as int, (ONE - cos_limit) as int, MAX_TRAVEL as int, 2 * (ONE as int));
        lemma_mul_bound(epsilon as int, PI as int, ONE as int, PI as int);
        lemma_components_bound_len(hit_normal@, ONE as int);
        let a = (radius as int) * ((ONE - cos_limit) as int);
        assert(0 <= a / (ONE as int) <= 2 * MAX_TRAVEL) by (nonlinear_arith)
            requires
                0 <= a <= MAX_TRAVEL * 2 * ONE,
        ;
        let b = (epsilon as int) * (PI as int);
        assert(0 <= b / (ONE as int) <= PI) by (nonlinear_arith)
            requires
                0 <= b <= ONE * PI,
        ;
    }
    let inward = ((radius as i128) * ((ONE - cos_limit) as i128) / (ONE as i128) + (epsilon as i128)
        * (PI as i128) / (ONE as i128)) as i64;
    let forward = if step_forward > inward {
        step_forward - inward
    } else {
        0
    };
    let horizontal = reject_from(hit_normal, up);
    let horizontal_normal = normalize_or_zero(&horizontal);
    let ahead = scaled_offset(direction, forward);
    proof {
        assert(inward <= 2 * MAX_TRAVEL + PI);
    }
    let into = scaled_offset_wide(&horizontal_normal, inward);
    proof {
        lemma_mul_bound(
            (forward + inward) as int,
            delta_time as int,
            3 * MAX_TRAVEL + PI,
            MAX_DELTA_TIME as int,
        );
        let p = ((forward + inward) as int) * (delta_time as int);
        assert(0 <= p / (ONE as int) <= p) by (nonlinear_arith)
            requires
                0 <= p,
        ;
    }
    let move_time = (((forward + inward) as i128) * (delta_time as i128) / (ONE as i128)) as i64;
    StepUpPlan {
        motion: Vec3 { x: ahead.x - into.x, y: ahead.y - into.y, z: ahead.z - into.z },
        forward,
        inward,
        move_time,
    }
}

/// `d * k / ONE` for a direction `d` and `k` up to three times [`MAX_TRAVEL`].
fn scaled_offset_wide(d: &Vec3, k: i64) -> (r: Vec3)
    requires
        is_direction(d@),
        0 <= k <= 3 * MAX_TRAVEL + PI,
    ensures
        r@ == scale_div(d@, k as int, ONE as int),
        within(r@, 3 * MAX_TRAVEL + PI),
{
    let ghost b: int = 3 * MAX_TRAVEL + PI;
    proof {
        lemma_mul_bound(d.x as int, k as int, ONE as int, b);
        lemma_mul_bound(d.y as int, k as int, ONE as int, b);
        lemma_mul_bound(d.z as int, k as int, ONE as int, b);
        crate::vector::lemma_div_trunc_le((d.x as int) * (k as int), ONE as int, b);
        crate::vector::lemma_div_trunc_le((d.y as int) * (k as int), ONE as int, b);
        crate::vector::lemma_div_trunc_le((d.z as int) * (k as int), ONE as int, b);
    }
    let x = crate::vector::div_toward_zero((d.x as i128) * (k as i128), ONE as i128);
    let y = crate::vector::div_toward_zero((d.y as i128) * (k as i128), ONE as i128);
    let z = crate::vector::div_toward_zero((d.z as i128) * (k as i128), ONE as i128);
    Vec3 { x: x as i64, y: y as i64, z: z as i64 }
}

/// The distance a cast of length `distance` lets the mover travel: the safe
/// distance of its hit (kept within the cast), or the full length when clear.
pub open spec fn travel_of(cast: Option<SweepHit>, distance: int) -> int {
    match cast {
        None => distance,
        Some(h) => if h.safe_distance < 0 {
            0
        } else if h.safe_distance > distance {
            distance
        } else {
            h.safe_distance as int
        },
    }
}

fn travel(cast: &Option<SweepHit>, distance: i64) -> (r: i64)
    requires
        distance >= 0,
    ensures
        r == travel_of(*cast, distance as int),
        0 <= r <= distance,
{
    match cast {
        None => distance,
        Some(h) => if h.safe_distance < 0 {
            0
        } else if h.safe_distance > distance {
            distance
        } else {
            h.safe_distance
        },
    }
}

/// Moves from `position` along the unit `direction` as far as a cast of
/// length `distance` allows (first phase of a climb: the lift; second: the
/// step motion at the top).
pub fn advance_along(position: &Vec3, direction: &Vec3, distance: i64, cast: &Option<SweepHit>) -> (r:
    Vec3)
    requires
        within(position@, WORLD_LIMIT as int),
        is_direction(direction@),
        0 <= distance <= MAX_TRAVEL,
    ensures
        r@ == vadd(position@, scale_div(direction@, travel_of(*cast, distance as int), ONE as int)),
        within(r@, WORLD_LIMIT + MAX_TRAVEL),
{
    let d = travel(cast, distance);
    let off = scaled_offset(direction, d);
    position.plus(&off)
}

/// A unit direction and a length to cast along it.
#[derive(Clone, Copy, Debug, PartialEq, Eq, Structural)]
pub struct CastLine {
    pub direction: Vec3,
    pub distance: i64,
}

/// The cast that takes a climb across its step motion: its unit direction and
/// its length.
pub fn step_motion_cast(motion: &Vec3) -> (r: CastLine)
    requires
        within(motion@, 4 * MAX_TRAVEL),
    ensures
        r.direction@ == normalize(motion@),
        r.distance == floor_sqrt(len_sq(motion@)),
        is_direction(r.direction@),
        0 <= r.distance <= 7 * MAX_TRAVEL,
{
    proof {
        lemma_components_bound_len(motion@, 24_000_000_000_000);
        lemma_len_sq_nonneg(motion@);
    }
    let n = motion.length_squared();
    let l = isqrt(n as u128);
    proof {
        let m: int = 42_000_000_000_000;
        assert(3 * (24_000_000_000_000int * 24_000_000_000_000int) <= 42_000_000_000_000int
            * 42_000_000_000_000int);
        assert(m * m == 42_000_000_000_000int * 42_000_000_000_000int);
        if l > m {
            assert((l as int) * (l as int) > m * m) by (nonlinear_arith)
                requires
                    l > m,
                    m >= 0,
            ;
        }
    }
    CastLine { direction: normalize_or_zero(motion), distance: l as i64 }
}

/// Where a mover comes to rest, and what it rests on.
#[derive(Clone, Copy, Debug, PartialEq, Eq, Structural)]
pub struct Settled {
    pub translation: Vec3,
    pub ground: Ground,
}

/// Settles onto the ground below: given a downward cast of length `distance`
/// from `position`, returns where the mover comes to rest and the ground it
/// rests on, if the cast struck a surface walkable under `cos_limit`.
pub fn settle_on_ground(
    position: &Vec3,
    up: &Vec3,
    distance: i64,
    cast: &Option<SweepHit>,
    cos_limit: i64,
) -> (r: Option<Settled>)
    requires
        within(position@, WORLD_LIMIT + MAX_TRAVEL),
        is_direction(up@),
        0 <= distance <= MAX_TRAVEL,
        -ONE <= cos_limit <= ONE,
        cast is Some ==> is_direction(cast->0.hit.normal@),
    ensures
        r is Some <==> cast is Some && walkable(cast->0.hit.normal@, up@, cos_limit as int),
        r is Some ==> r->0.translation@ == vsub(
            position@,
            scale_div(up@, travel_of(*cast, distance as int), ONE as int),
        ),
        r is Some ==> r->0.ground@ == (GroundView {
            surface: cast->0.hit.surface,
            normal: cast->0.hit.normal@,
        }),
        r is Some ==> r->0.ground.wf(),
{
    match cast {
        None => None,
        Some(h) => {
            match Ground::new_if_walkable(h.hit.surface, h.hit.normal, up, cos_limit) {
                None => None,
                Some(g) => {
                    let d = travel(cast, distance);
                    let off = scaled_offset(up, d);
                    Some(
                        Settled {
                            translation: Vec3 {
                                x: position.x - off.x,
                                y: position.y - off.y,
                                z: position.z - off.z,
                            },
                            ground: g,
                        },
                    )
                },
            }
        },
    }
}

} // verus!
