//! The move-and-slide loop, as a state machine.
//!
//! The mover asks for one shape cast at a time ([`MoveAndSlide::next_sweep`]),
//! performs it against its world, lets its hit hook decide between sliding
//! and a step-up, and hands the outcome back to [`move_and_slide`]. The loop
//! ends after a clear cast, when the solved velocity turns against the
//! original direction, or after `max_iterations` casts.
use vstd::prelude::*;
use crate::planes::{
    lemma_solve_len, solve, solve_collision_planes, views, CORNER_NUDGE,
};
use crate::sweep::SweepHit;
use crate::vector::{
    dot, floor_sqrt, is_direction, is_floor_sqrt, is_speed, isqrt, len_sq,
    lemma_components_bound_len, lemma_div_trunc_le, lemma_len_bounds_components,
    lemma_len_sq_nonneg, lemma_mul_bound, normalize, normalize_or_zero, scale_div, vadd, within,
    Vec3, V3, MAX_SPEED, ONE, div_toward_zero, vsub,
};

verus! {

/// Most sweep iterations a single move may ask for.
pub const MAX_ITERATIONS: usize = 1000;

/// Longest time step, in fixed-point seconds (one minute).
pub const MAX_DELTA_TIME: i64 = 60_000_000;

/// Longest distance one iteration can cover: `MAX_SPEED * MAX_DELTA_TIME / ONE`.
pub const MAX_TRAVEL: i64 = 6_000_000_000_000;

/// Largest coordinate a mover may occupy.
pub const WORLD_LIMIT: i64 = 1_000_000_000_000_000_000;

/// Tunables of the loop.
#[derive(Clone, Copy, Debug, PartialEq, Eq, Structural)]
pub struct MoveAndSlideConfig {
    /// Upper bound on sweep iterations in one move.
    pub max_iterations: usize,
    /// Clearance kept between the mover and what it touches.
    pub skin_width: i64,
    /// Tolerance for safe distances and for a velocity that counts as stopped.
    pub epsilon: i64,
}

impl MoveAndSlideConfig {
    pub open spec fn wf(&self) -> bool {
        &&& self.max_iterations <= MAX_ITERATIONS
        &&& 0 <= self.skin_width <= ONE
        &&& 0 <= self.epsilon <= ONE
    }

    /// Whether the tunables lie within the ranges the loop accepts.
    pub fn is_valid(&self) -> (r: bool)
        ensures
            r == self.wf(),
    {
        self.max_iterations <= MAX_ITERATIONS && 0 <= self.skin_width && self.skin_width <= ONE
            && 0 <= self.epsilon && self.epsilon <= ONE
    }
}

impl Default for MoveAndSlideConfig {
    /// Four iterations, a skin of 0.01 and an epsilon of 0.0001.
    fn default() -> (r: Self)
        ensures
            r.max_iterations == 4,
            r.skin_width == 10_000,
            r.epsilon == 100,
            r.wf(),
    {
        MoveAndSlideConfig { max_iterations: 4, skin_width: 10_000, epsilon: 100 }
    }
}

/// What the hit hook decided for one hit.
#[derive(Clone, Copy, Debug, PartialEq, Eq, Structural)]
pub enum HitResponse {
    /// Clip the velocity against the hit surface.
    Slide,
    /// The hook stepped the mover up onto the obstacle: it now stands at
    /// `translation`, and the step used `consumed_time` of the remaining time.
    SteppedUp { translation: Vec3, consumed_time: i64 },
}

/// A surface struck by a cast of the loop, and the hit hook's answer to it.
#[derive(Clone, Copy, Debug, PartialEq, Eq, Structural)]
pub struct MoveAndSlideHit {
    pub hit: SweepHit,
    pub response: HitResponse,
}

/// The result of the cast that [`MoveAndSlide::next_sweep`] asked for.
#[derive(Clone, Copy, Debug, PartialEq, Eq, Structural)]
pub enum SweepOutcome {
    /// Nothing within range.
    Clear,
    /// A surface was struck, and the hook answered it.
    Hit(MoveAndSlideHit),
}

/// One shape cast the loop needs.
#[derive(Clone, Copy, Debug, PartialEq, Eq, Structural)]
pub struct SweepRequest {
    pub origin: Vec3,
    /// Unit direction of the cast.
    pub direction: Vec3,
    /// Cast length: the distance the remaining time covers, plus the skin width.
    pub distance: i64,
}

/// A move in progress.
pub struct MoveAndSlide {
    pub translation: Vec3,
    pub velocity: Vec3,
    /// Time of the step not yet spent, in fixed-point seconds.
    pub remaining_time: i64,
    /// Iterations performed so far.
    pub iteration: usize,
    pub config: MoveAndSlideConfig,
    /// Unit direction of the velocity the move started with.
    pub original_direction: Vec3,
    /// Normals of the surfaces slid against so far, oldest first.
    pub hits: Vec<Vec3>,
    pub finished: bool,
}

/// The model of a move in progress.
pub struct SlideView {
    pub translation: V3,
    pub velocity: V3,
    pub remaining_time: int,
    pub iteration: int,
    pub max_iterations: int,
    pub skin_width: int,
    pub epsilon: int,
    pub original_direction: V3,
    pub hits: Seq<V3>,
    pub finished: bool,
}

impl View for MoveAndSlide {
    type V = SlideView;

    open spec fn view(&self) -> SlideView {
        SlideView {
            translation: self.translation@,
            velocity: self.velocity@,
            remaining_time: self.remaining_time as int,
            iteration: self.iteration as int,
            max_iterations: self.config.max_iterations as int,
            skin_width: self.config.skin_width as int,
            epsilon: self.config.epsilon as int,
            original_direction: self.original_direction@,
            hits: views(self.hits@),
            finished: self.finished,
        }
    }
}

/// Speed a move may still reach with `k` iterations to go: each iteration may
/// add up to twice the corner nudge.
pub open spec fn speed_room(k: int) -> int {
    MAX_SPEED - 20_000 * k
}

/// Coordinates a move may still reach with `k` iterations to go: each
/// iteration travels at most [`MAX_TRAVEL`].
pub open spec fn world_room(k: int) -> int {
    WORLD_LIMIT - 6_000_000_000_000 * k
}

/// Inputs that a move may start from.
pub open spec fn start_allowed(
    translation: V3,
    velocity: V3,
    config: MoveAndSlideConfig,
    delta_time: int,
) -> bool {
    &&& config.wf()
    &&& 0 <= delta_time <= MAX_DELTA_TIME
    &&& len_sq(velocity) <= speed_room(config.max_iterations as int) * speed_room(
        config.max_iterations as int,
    )
    &&& within(translation, world_room(config.max_iterations as int + 1))
}

/// A move with no motion, no time or no iterations is over before it starts.
pub open spec fn start(
    translation: V3,
    velocity: V3,
    config: MoveAndSlideConfig,
    delta_time: int,
) -> SlideView {
    SlideView {
        translation,
        velocity,
        remaining_time: delta_time,
        iteration: 0,
        max_iterations: config.max_iterations as int,
        skin_width: config.skin_width as int,
        epsilon: config.epsilon as int,
        original_direction: normalize(velocity),
        hits: Seq::empty(),
        finished: len_sq(velocity) == 0 || delta_time == 0 || config.max_iterations == 0,
    }
}

impl SlideView {
    /// Iterations left.
    pub open spec fn left(&self) -> int {
        self.max_iterations - self.iteration
    }

    pub open spec fn wf(&self) -> bool {
        &&& 0 <= self.iteration <= self.max_iterations <= MAX_ITERATIONS
        &&& 0 <= self.skin_width <= ONE
        &&& 0 <= self.epsilon <= ONE
        &&& 0 <= self.remaining_time <= MAX_DELTA_TIME
        &&& is_direction(self.original_direction)
        &&& forall|k: int| 0 <= k < self.hits.len() ==> is_direction(#[trigger] self.hits[k])
        &&& if self.finished {
            is_speed(self.velocity) && within(self.translation, WORLD_LIMIT as int)
        } else {
            &&& self.iteration < self.max_iterations
            &&& len_sq(self.velocity) <= speed_room(self.left()) * speed_room(self.left())
            &&& within(self.translation, world_room(self.left()))
        }
    }

    /// Distance the remaining time covers at the current speed.
    pub open spec fn max_distance(&self) -> int {
        floor_sqrt(len_sq(self.velocity)) * self.remaining_time / (ONE as int)
    }

    pub open spec fn sweep_request(&self) -> SweepRequest {
        SweepRequest {
            origin: Vec3 {
                x: self.translation.x as i64,
                y: self.translation.y as i64,
                z: self.translation.z as i64,
            },
            direction: Vec3 {
                x: normalize(self.velocity).x as i64,
                y: normalize(self.velocity).y as i64,
                z: normalize(self.velocity).z as i64,
            },
            distance: (self.max_distance() + self.skin_width) as i64,
        }
    }

    /// Whether the loop can take this outcome: unit-bounded normals, and a
    /// step-up that stays in the world and spends no negative time.
    pub open spec fn outcome_allowed(&self, outcome: SweepOutcome) -> bool {
        match outcome {
            SweepOutcome::Clear => true,
            SweepOutcome::Hit(MoveAndSlideHit { hit, response }) => {
                &&& is_direction(hit.hit.normal@)
                &&& match response {
                    HitResponse::Slide => true,
                    HitResponse::SteppedUp { translation, consumed_time } => {
                        &&& consumed_time >= 0
                        &&& within(translation@, world_room(self.left() - 1))
                    },
                }
            },
        }
    }
}

/// `max(a, 0)`.
pub open spec fn clamp_nonneg(a: int) -> int {
    if a > 0 {
        a
    } else {
        0
    }
}

/// The part of the planned distance that the iteration achieved: the safe
/// distance less the skin width, clamped to `[0, max_distance]`.
pub open spec fn advance_of(safe_distance: int, skin_width: int, max_distance: int) -> int {
    let movement = clamp_nonneg(safe_distance - skin_width);
    if max_distance <= 0 {
        0
    } else if movement > max_distance {
        max_distance
    } else {
        movement
    }
}

/// One iteration of the loop.
pub open spec fn slide_step(s: SlideView, outcome: SweepOutcome) -> SlideView {
    let done = s.iteration + 1 >= s.max_iterations;
    match outcome {
        SweepOutcome::Clear => SlideView {
            translation: vadd(s.translation, scale_div(s.velocity, s.remaining_time, ONE as int)),
            finished: true,
            ..s
        },
        SweepOutcome::Hit(MoveAndSlideHit { hit, response }) => match response {
            HitResponse::SteppedUp { translation, consumed_time } => SlideView {
                translation: translation@,
                remaining_time: clamp_nonneg(s.remaining_time - consumed_time),
                iteration: s.iteration + 1,
                finished: done,
                ..s
            },
            HitResponse::Slide => {
                let hits = s.hits.push(hit.hit.normal@);
                let v = solve(s.velocity, hits, s.original_direction, s.epsilon);
                if dot(v, s.original_direction) <= 0 {
                    SlideView { velocity: v, hits, iteration: s.iteration + 1, finished: true, ..s }
                } else {
                    let md = s.max_distance();
                    let advance = advance_of(hit.safe_distance as int, s.skin_width, md);
                    let spent = if md > 0 {
                        s.remaining_time * advance / md
                    } else {
                        0
                    };
                    SlideView {
                        translation: vadd(
                            s.translation,
                            scale_div(normalize(s.velocity), advance, ONE as int),
                        ),
                        velocity: v,
                        remaining_time: s.remaining_time - spent,
                        hits,
                        iteration: s.iteration + 1,
                        finished: done,
                        ..s
                    }
                }
            },
        },
    }
}

proof fn lemma_room_facts(k: int)
    requires
        0 <= k <= MAX_ITERATIONS + 1,
    ensures
        0 <= speed_room(k) <= MAX_SPEED,
        speed_room(k) * speed_room(k) <= (MAX_SPEED as int) * (MAX_SPEED as int),
        k >= 1 ==> speed_room(k) + 2 * CORNER_NUDGE == speed_room(k - 1),
        MAX_TRAVEL <= world_room(k) <= WORLD_LIMIT,
        k >= 1 ==> world_room(k) + MAX_TRAVEL == world_room(k - 1),
{
    assert(speed_room(k) * speed_room(k) <= (MAX_SPEED as int) * (MAX_SPEED as int))
        by (nonlinear_arith)
        requires
            0 <= speed_room(k) <= MAX_SPEED,
    ;
}

/// `floor_sqrt(n) <= m` when `n <= m * m`.
proof fn lemma_floor_sqrt_le(n: int, m: int)
    requires
        0 <= n <= m * m,
        m >= 0,
        is_floor_sqrt(floor_sqrt(n), n),
    ensures
        floor_sqrt(n) <= m,
{
    let l = floor_sqrt(n);
    if l > m {
        assert(l * l > m * m) by (nonlinear_arith)
            requires
                l > m,
                m >= 0,
        ;
    }
}

impl MoveAndSlide {
    /// Whether a move may start from these inputs.
    pub fn accepts(translation: &Vec3, velocity: &Vec3, config: &MoveAndSlideConfig, delta_time: i64) -> (r:
        bool)
        ensures
            r == start_allowed(translation@, velocity@, *config, delta_time as int),
    {
        if !config.is_valid() || delta_time < 0 || delta_time > MAX_DELTA_TIME {
            return false;
        }
        let k = config.max_iterations as i64;
        let room = MAX_SPEED - 20_000 * k;
        let world = WORLD_LIMIT - 6_000_000_000_000 * (k + 1);
        if !(-world <= translation.x && translation.x <= world && -world <= translation.y
            && translation.y <= world && -world <= translation.z && translation.z <= world) {
            return false;
        }
        if !(-MAX_SPEED <= velocity.x && velocity.x <= MAX_SPEED && -MAX_SPEED <= velocity.y
            && velocity.y <= MAX_SPEED && -MAX_SPEED <= velocity.z && velocity.z <= MAX_SPEED) {
            proof {
                if len_sq(velocity@) <= room * room {
                    lemma_room_facts(k as int);
                    lemma_len_bounds_components(velocity@, MAX_SPEED as int);
                }
            }
            return false;
        }
        proof {
            lemma_room_facts(k as int);
            lemma_mul_bound(room as int, room as int, MAX_SPEED as int, MAX_SPEED as int);
        }
        velocity.length_squared() <= (room as i128) * (room as i128)
    }

    /// Starts a move from `translation` with `velocity` over `delta_time`.
    pub fn new(translation: Vec3, velocity: Vec3, config: MoveAndSlideConfig, delta_time: i64) -> (r:
        MoveAndSlide)
        requires
            start_allowed(translation@, velocity@, config, delta_time as int),
        ensures
            r@ == start(translation@, velocity@, config, delta_time as int),
            r@.wf(),
            r.config == config,
    {
        proof {
            lemma_room_facts(config.max_iterations as int);
            lemma_room_facts(config.max_iterations as int + 1);
            lemma_len_bounds_components(velocity@, MAX_SPEED as int);
            lemma_len_sq_nonneg(velocity@);
        }
        let original_direction = normalize_or_zero(&velocity);
        let finished = velocity.length_squared() == 0 || delta_time == 0
            || config.max_iterations == 0;
        let r = MoveAndSlide {
            translation,
            velocity,
            remaining_time: delta_time,
            iteration: 0,
            config,
            original_direction,
            hits: Vec::new(),
            finished,
        };
        assert(r@.hits =~= Seq::empty());
        r
    }

    /// The distance the remaining time covers at the current speed.
    fn max_distance(&self) -> (r: i64)
        requires
            self@.wf(),
            !self.finished,
        ensures
            r == self@.max_distance(),
            0 <= r <= MAX_TRAVEL,
    {
        let ghost k = self@.left();
        proof {
            lemma_room_facts(k);
            lemma_len_sq_nonneg(self.velocity@);
            lemma_len_bounds_components(self.velocity@, MAX_SPEED as int);
        }
        let n = self.velocity.length_squared();
        let l = isqrt(n as u128);
        proof {
            assert(len_sq(self.velocity@) <= (MAX_SPEED as int) * (MAX_SPEED as int)) by (
            nonlinear_arith)
                requires
                    len_sq(self.velocity@) <= speed_room(k) * speed_room(k),
                    0 <= speed_room(k) <= MAX_SPEED,
            ;
            lemma_floor_sqrt_le(n as int, MAX_SPEED as int);
            lemma_mul_bound(l as int, self.remaining_time as int, MAX_SPEED as int, MAX_DELTA_TIME as int);
            let p = (l as int) * (self.remaining_time as int);
            assert(0 <= p / (ONE as int) <= MAX_TRAVEL) by (nonlinear_arith)
                requires
                    0 <= p <= 6_000_000_000_000_000_000,
            ;
        }
        ((l as i128) * (self.remaining_time as i128) / (ONE as i128)) as i64
    }

    /// The next shape cast the move needs, or `None` once it is over.
    pub fn next_sweep(&self) -> (r: Option<SweepRequest>)
        requires
            self@.wf(),
        ensures
            r is None <==> self.finished,
            r is Some ==> r->0 == self@.sweep_request(),
    {
        if self.finished {
            return None;
        }
        let md = self.max_distance();
        proof {
            lemma_room_facts(self@.left());
            assert(len_sq(self.velocity@) <= (MAX_SPEED as int) * (MAX_SPEED as int)) by (
            nonlinear_arith)
                requires
                    len_sq(self.velocity@) <= speed_room(self@.left()) * speed_room(self@.left()),
                    0 <= speed_room(self@.left()) <= MAX_SPEED,
            ;
        }
        let direction = normalize_or_zero(&self.velocity);
        Some(
            SweepRequest {
                origin: self.translation,
                direction,
                distance: md + self.config.skin_width,
            },
        )
    }
}

/// `d * k / ONE` in each component, rounded toward zero.
pub(crate) fn scaled_offset(d: &Vec3, k: i64) -> (r: Vec3)
    requires
        0 <= k,
        (within(d@, MAX_SPEED as int) && k <= MAX_DELTA_TIME) || (within(d@, ONE as int) && k
            <= MAX_TRAVEL),
    ensures
        r@ == scale_div(d@, k as int, ONE as int),
        within(r@, MAX_TRAVEL as int),
{
    proof {
        if within(d@, MAX_SPEED as int) && k <= MAX_DELTA_TIME {
            lemma_mul_bound(d.x as int, k as int, MAX_SPEED as int, MAX_DELTA_TIME as int);
            lemma_mul_bound(d.y as int, k as int, MAX_SPEED as int, MAX_DELTA_TIME as int);
            lemma_mul_bound(d.z as int, k as int, MAX_SPEED as int, MAX_DELTA_TIME as int);
        } else {
            lemma_mul_bound(d.x as int, k as int, ONE as int, MAX_TRAVEL as int);
            lemma_mul_bound(d.y as int, k as int, ONE as int, MAX_TRAVEL as int);
            lemma_mul_bound(d.z as int, k as int, ONE as int, MAX_TRAVEL as int);
        }
        lemma_div_trunc_le((d.x as int) * (k as int), ONE as int, MAX_TRAVEL as int);
        lemma_div_trunc_le((d.y as int) * (k as int), ONE as int, MAX_TRAVEL as int);
        lemma_div_trunc_le((d.z as int) * (k as int), ONE as int, MAX_TRAVEL as int);
    }
    let x = div_toward_zero((d.x as i128) * (k as i128), ONE as i128);
    let y = div_toward_zero((d.y as i128) * (k as i128), ONE as i128);
    let z = div_toward_zero((d.z as i128) * (k as i128), ONE as i128);
    Vec3 { x: x as i64, y: y as i64, z: z as i64 }
}

impl MoveAndSlide {
    /// Whether [`move_and_slide`] can take this outcome.
    pub fn accepts_outcome(&self, outcome: &SweepOutcome) -> (r: bool)
        requires
            self@.wf(),
            !self.finished,
        ensures
            r == self@.outcome_allowed(*outcome),
    {
        match outcome {
            SweepOutcome::Clear => true,
            SweepOutcome::Hit(MoveAndSlideHit { hit, response }) => {
                let n = hit.hit.normal;
                if !(-ONE <= n.x && n.x <= ONE && -ONE <= n.y && n.y <= ONE && -ONE <= n.z && n.z
                    <= ONE) {
                    return false;
                }
                match response {
                    HitResponse::Slide => true,
                    HitResponse::SteppedUp { translation, consumed_time } => {
                        let left = (self.config.max_iterations - self.iteration) as i64;
                        let world = WORLD_LIMIT - 6_000_000_000_000 * (left - 1);
                        *consumed_time >= 0 && -world <= translation.x && translation.x <= world
                            && -world <= translation.y && translation.y <= world && -world
                            <= translation.z && translation.z <= world
                    },
                }
            },
        }
    }
}

/// Advances the move by the outcome of the cast that
/// [`MoveAndSlide::next_sweep`] asked for.
///
/// A clear cast moves the full remaining distance and ends the move. A
/// step-up places the mover where the hook put it and spends the time the
/// step took. A slide records the hit normal, solves the velocity against all
/// recorded normals, ends the move if the new velocity runs against the
/// original direction, and otherwise advances along the old direction by the
/// achieved part of the planned distance, spending the same part of the time.
pub fn move_and_slide(state: &mut MoveAndSlide, outcome: SweepOutcome)
    requires
        old(state)@.wf(),
        !old(state).finished,
        old(state)@.outcome_allowed(outcome),
    ensures
        final(state)@ == slide_step(old(state)@, outcome),
        final(state)@.wf(),
        final(state).config == old(state).config,
{
    let ghost s0 = state@;
    let ghost k = s0.left();
    proof {
        lemma_room_facts(k);
        lemma_room_facts(k - 1);
        assert(len_sq(s0.velocity) <= (MAX_SPEED as int) * (MAX_SPEED as int)) by (nonlinear_arith)
            requires
                len_sq(s0.velocity) <= speed_room(k) * speed_room(k),
                0 <= speed_room(k) <= MAX_SPEED,
        ;
        lemma_len_bounds_components(s0.velocity, MAX_SPEED as int);
        lemma_len_sq_nonneg(s0.velocity);
    }
    match outcome {
        SweepOutcome::Clear => {
            let d = scaled_offset(&state.velocity, state.remaining_time);
            state.translation = state.translation.plus(&d);
            state.finished = true;
            assert(within(state.translation@, world_room(k - 1)));
            assert(is_speed(state.velocity@));
            assert(state@.hits == s0.hits);
        },
        SweepOutcome::Hit(MoveAndSlideHit { hit, response }) => match response {
            HitResponse::SteppedUp { translation, consumed_time } => {
                state.translation = translation;
                state.remaining_time = if state.remaining_time > consumed_time {
                    state.remaining_time - consumed_time
                } else {
                    0
                };
                state.iteration = state.iteration + 1;
                state.finished = state.iteration >= state.config.max_iterations;
                assert(speed_room(k) * speed_room(k) <= speed_room(k - 1) * speed_room(k - 1))
                    by (nonlinear_arith)
                    requires
                        0 <= speed_room(k) <= speed_room(k - 1),
                ;
            },
            HitResponse::Slide => {
                let md = state.max_distance();
                let direction = normalize_or_zero(&state.velocity);
                let ghost old_hits = state.hits@;
                state.hits.push(hit.hit.normal);
                assert(views(state.hits@) =~= views(old_hits).push(hit.hit.normal@));
                assert forall|j: int| 0 <= j < state.hits@.len() implies is_direction(
                    #[trigger] state.hits@[j]@,
                ) by {
                    if j < old_hits.len() {
                        assert(state.hits@[j] == old_hits[j]);
                        assert(s0.hits == views(old_hits));
                        assert(s0.hits[j] == old_hits[j]@);
                        assert(is_direction(s0.hits[j]));
                    } else {
                        assert(state.hits@[j] == hit.hit.normal);
                    }
                }
                assert(forall|j: int|
                    0 <= j < views(state.hits@).len() ==> is_direction(
                        #[trigger] views(state.hits@)[j],
                    ));
                proof {
                    lemma_components_bound_len(state.original_direction@, ONE as int);
                }
                let v = solve_collision_planes(
                    &state.velocity,
                    &state.hits,
                    &state.original_direction,
                    state.config.epsilon,
                );
                proof {
                    lemma_solve_len(
                        s0.velocity,
                        views(state.hits@),
                        s0.original_direction,
                        s0.epsilon,
                        speed_room(k),
                    );
                    assert(speed_room(k) + 2 * CORNER_NUDGE == speed_room(k - 1));
                    assert(len_sq(v@) <= speed_room(k - 1) * speed_room(k - 1));
                    assert(speed_room(k - 1) * speed_room(k - 1) <= (MAX_SPEED as int) * (
                    MAX_SPEED as int)) by (nonlinear_arith)
                        requires
                            0 <= speed_room(k - 1) <= MAX_SPEED,
                    ;
                    lemma_len_bounds_components(v@, MAX_SPEED as int);
                }
                state.velocity = v;
                state.iteration = state.iteration + 1;
                if v.dot(&state.original_direction) <= 0 {
                    state.finished = true;
                    return;
                }
                let movement = if hit.safe_distance > state.config.skin_width {
                    hit.safe_distance - state.config.skin_width
                } else {
                    0
                };
                let advance = if md <= 0 {
                    0
                } else if movement > md {
                    md
                } else {
                    movement
                };
                let spent = if md > 0 {
                    proof {
                        lemma_mul_bound(
                            state.remaining_time as int,
                            advance as int,
                            MAX_DELTA_TIME as int,
                            MAX_TRAVEL as int,
                        );
                        let p = (state.remaining_time as int) * (advance as int);
                        assert(0 <= p / (md as int) <= state.remaining_time) by (nonlinear_arith)
                            requires
                                p == (state.remaining_time as int) * (advance as int),
                                0 <= advance <= md,
                                md > 0,
                                state.remaining_time >= 0,
                        ;
                    }
                    ((state.remaining_time as i128) * (advance as i128) / (md as i128)) as i64
                } else {
                    0
                };
                let d = scaled_offset(&direction, advance);
                state.translation = state.translation.plus(&d);
                state.remaining_time = state.remaining_time - spent;
                state.finished = state.iteration >= state.config.max_iterations;
            },
        },
    }
}

/// The move after feeding it `outcomes` in order, stopping once it is over.
pub open spec fn run(s: SlideView, outcomes: Seq<SweepOutcome>) -> SlideView
    decreases outcomes.len(),
{
    if s.finished || outcomes.len() == 0 {
        s
    } else {
        run(slide_step(s, outcomes[0]), outcomes.drop_first())
    }
}

/// In open space the first cast is clear: the move covers `velocity * delta_time`
/// (each component rounded toward zero) and keeps its velocity.
pub proof fn lemma_open_volume(
    translation: V3,
    velocity: V3,
    config: MoveAndSlideConfig,
    delta_time: int,
)
    requires
        start_allowed(translation, velocity, config, delta_time),
        len_sq(velocity) > 0,
        config.max_iterations >= 1,
    ensures
        ({
            let s = slide_step(start(translation, velocity, config, delta_time), SweepOutcome::Clear);
            &&& s.finished
            &&& s.translation == vadd(translation, scale_div(velocity, delta_time, ONE as int))
            &&& s.velocity == velocity
        }),
{
}

/// A move over zero time changes nothing, whatever the casts would report,
/// and moving again over zero time from where it left off changes nothing
/// either.
pub proof fn lemma_zero_time_twice_is_noop(
    translation: V3,
    velocity: V3,
    config: MoveAndSlideConfig,
    first: Seq<SweepOutcome>,
    second: Seq<SweepOutcome>,
)
    ensures
        ({
            let a = run(start(translation, velocity, config, 0), first);
            let b = run(start(a.translation, a.velocity, config, 0), second);
            &&& a.translation == translation && a.velocity == velocity
            &&& b.translation == translation && b.velocity == velocity
        }),
{
    let a = start(translation, velocity, config, 0);
    assert(run(a, first) == a);
    let b = start(translation, velocity, config, 0);
    assert(run(b, second) == b);
}

/// The loop is bounded: whatever the casts report, a move is over after at
/// most `max_iterations` outcomes.
pub proof fn lemma_run_terminates(s: SlideView, outcomes: Seq<SweepOutcome>)
    requires
        !s.finished ==> s.iteration < s.max_iterations,
        outcomes.len() >= s.max_iterations - s.iteration,
    ensures
        run(s, outcomes).finished,
    decreases outcomes.len(),
{
    if !s.finished {
        let n = slide_step(s, outcomes[0]);
        assert(run(s, outcomes) == run(n, outcomes.drop_first()));
        if !n.finished {
            assert(n.iteration == s.iteration + 1 && n.max_iterations == s.max_iterations);
            lemma_run_terminates(n, outcomes.drop_first());
        }
    }
}

/// A slide never carries the mover past the struck surface: the step taken
/// along the old direction is no longer, in any axis, than the safe distance
/// less the skin width, nor than the distance the remaining time covers.
pub proof fn lemma_slide_stays_short_of_hit(s: SlideView, hit: MoveAndSlideHit)
    requires
        s.wf(),
        !s.finished,
        hit.response == HitResponse::Slide,
    ensures
        ({
            let n = slide_step(s, SweepOutcome::Hit(hit));
            let advance = advance_of(hit.hit.safe_distance as int, s.skin_width, s.max_distance());
            &&& 0 <= advance <= clamp_nonneg(hit.hit.safe_distance - s.skin_width)
            &&& advance <= clamp_nonneg(s.max_distance())
            &&& within(vsub(n.translation, s.translation), advance)
        }),
{
    let md = s.max_distance();
    let advance = advance_of(hit.hit.safe_distance as int, s.skin_width, md);
    let dir = normalize(s.velocity);
    lemma_len_bounds_components(s.velocity, speed_room(s.left()));
    crate::vector::lemma_with_length_within(s.velocity, ONE as int);
    lemma_mul_bound(dir.x, advance, ONE as int, advance);
    lemma_mul_bound(dir.y, advance, ONE as int, advance);
    lemma_mul_bound(dir.z, advance, ONE as int, advance);
    lemma_div_trunc_le(dir.x * advance, ONE as int, advance);
    lemma_div_trunc_le(dir.y * advance, ONE as int, advance);
    lemma_div_trunc_le(dir.z * advance, ONE as int, advance);
}

} // verus!
