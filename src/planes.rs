//! Resolving a velocity against the contact planes met during one step.
//!
//! The most recent plane is met first: the velocity slides along it, then each
//! remaining plane that is not a near copy of it (or of the wish direction)
//! narrows the motion to the crease the two planes form. A corner where a third
//! plane blocks the crease ends the solve with a small push out of the corner.
use vstd::prelude::*;
use crate::vector::{
    abs, cross, div_trunc, dot, lemma_reject_orthogonal, floor_sqrt, is_direction, is_floor_sqrt, lemma_cauchy_schwarz,
    lemma_div_trunc, lemma_floor_sqrt_exists, lemma_project_shortens, lemma_reject_shortens,
    lemma_root_bound, lemma_with_length_within, scale_div, is_small, is_speed, len_sq, lemma_components_bound_len,
    lemma_len_bounds_components, lemma_len_sq_nonneg, lemma_mul_bound, normalize, normalize_or_zero, project,
    project_onto, reject, reject_from, rescale, similar, similar_plane, vadd, with_length, within,
    zero, Vec3, MAX_SPEED, ONE, V3,
};

verus! {

/// Length of the push out of a corner: one hundredth of [`ONE`].
pub const CORNER_NUDGE: i64 = 10_000;

/// A velocity whose magnitude does not exceed `epsilon` squared counts as no
/// motion at all. In fixed point, `|v| / ONE <= (epsilon / ONE)^2`, compared
/// on squares.
pub open spec fn is_stuck(v: V3, epsilon: int) -> bool {
    len_sq(v) * ((ONE as int) * (ONE as int)) <= (epsilon * epsilon) * (epsilon * epsilon)
}

/// The models of a sequence of vectors.
pub open spec fn views(s: Seq<Vec3>) -> Seq<V3> {
    s.map_values(|v: Vec3| v@)
}

/// A plane that adds nothing: a near copy of the first plane or of the wish direction.
pub open spec fn is_redundant(first: V3, wish_normal: V3, n: V3) -> bool {
    similar(first, n) || similar(wish_normal, n)
}

/// A third candidate plane (one that is not redundant), distinct from the
/// second crease plane, that the crease motion runs along.
pub open spec fn blocks_crease(
    first: V3,
    wish_normal: V3,
    second: V3,
    dir: V3,
    third: V3,
) -> bool {
    !is_redundant(first, wish_normal, third) && !similar(second, third) && similar(dir, third)
}

pub open spec fn is_corner(
    planes: Seq<V3>,
    first: V3,
    wish_normal: V3,
    second: V3,
    dir: V3,
) -> bool {
    exists|j: int|
        0 <= j < planes.len() && #[trigger] blocks_crease(first, wish_normal, second, dir, planes[j])
}

/// The push out of the corner formed by two planes.
pub open spec fn corner_nudge(first: V3, second: V3) -> V3 {
    with_length(vadd(first, second), CORNER_NUDGE as int)
}

/// What one constraining plane does to the working velocity.
pub enum Fold {
    /// Go on with this velocity.
    Continue(V3),
    /// The solve ends with this velocity.
    Stop(V3),
}

/// One constraining plane `second`: the velocity slides along it. If that
/// re-aligns the motion with the first plane the solve ends (with no motion
/// if it is stuck); otherwise the motion follows the crease of the two planes.
pub open spec fn fold_step(
    planes: Seq<V3>,
    first: V3,
    wish_normal: V3,
    second: V3,
    vel: V3,
    epsilon: int,
) -> Fold {
    let v = reject(vel, second);
    if similar(normalize(v), first) {
        if is_stuck(v, epsilon) {
            Fold::Stop(zero())
        } else {
            Fold::Stop(v)
        }
    } else {
        let p = project(v, cross(first, second));
        if is_corner(planes, first, wish_normal, second, normalize(p)) {
            Fold::Stop(vadd(p, corner_nudge(first, second)))
        } else if is_stuck(p, epsilon) {
            Fold::Stop(p)
        } else {
            Fold::Continue(p)
        }
    }
}

/// Folds the planes from index `i` on into the working velocity `vel`.
pub open spec fn fold_planes(
    planes: Seq<V3>,
    first: V3,
    wish_normal: V3,
    vel: V3,
    epsilon: int,
    i: nat,
) -> V3
    decreases planes.len() - i,
{
    if i >= planes.len() {
        vel
    } else if is_redundant(first, wish_normal, planes[i as int]) {
        fold_planes(planes, first, wish_normal, vel, epsilon, i + 1)
    } else {
        match fold_step(planes, first, wish_normal, planes[i as int], vel, epsilon) {
            Fold::Stop(r) => r,
            Fold::Continue(w) => fold_planes(planes, first, wish_normal, w, epsilon, i + 1),
        }
    }
}

/// The velocity left after resolving `velocity` against the contact normals
/// `hits` (most recent last), given the direction the mover first wished to go.
pub open spec fn solve(velocity: V3, hits: Seq<V3>, wish: V3, epsilon: int) -> V3 {
    if len_sq(velocity) == 0 || len_sq(wish) == 0 {
        zero()
    } else if hits.len() == 0 {
        velocity
    } else if dot(velocity, hits.last()) >= 0 {
        velocity
    } else {
        let wish_normal = normalize(wish);
        fold_planes(
            seq![wish_normal] + hits,
            hits.last(),
            wish_normal,
            reject(velocity, hits.last()),
            epsilon,
            0,
        )
    }
}

fn blocks_crease_exec(
    first: &Vec3,
    wish_normal: &Vec3,
    second: &Vec3,
    dir: &Vec3,
    third: &Vec3,
) -> (r: bool)
    requires
        is_direction(first@),
        is_direction(wish_normal@),
        is_direction(second@),
        is_direction(dir@),
        is_direction(third@),
    ensures
        r == blocks_crease(first@, wish_normal@, second@, dir@, third@),
{
    !similar_plane(first, third) && !similar_plane(wish_normal, third) && !similar_plane(
        second,
        third,
    ) && similar_plane(dir, third)
}

fn is_corner_exec(
    planes: &Vec<Vec3>,
    first: &Vec3,
    wish_normal: &Vec3,
    second: &Vec3,
    dir: &Vec3,
) -> (r: bool)
    requires
        forall|k: int| 0 <= k < planes.len() ==> is_direction(#[trigger] planes@[k]@),
        is_direction(first@),
        is_direction(wish_normal@),
        is_direction(second@),
        is_direction(dir@),
    ensures
        r == is_corner(views(planes@), first@, wish_normal@, second@, dir@),
{
    let mut j: usize = 0;
    while j < planes.len()
        invariant
            j <= planes.len(),
            forall|k: int| 0 <= k < planes.len() ==> is_direction(#[trigger] planes@[k]@),
            is_direction(first@),
            is_direction(wish_normal@),
            is_direction(second@),
            is_direction(dir@),
            forall|k: int|
                0 <= k < j ==> !#[trigger] blocks_crease(
                    first@,
                    wish_normal@,
                    second@,
                    dir@,
                    views(planes@)[k],
                ),
        decreases planes.len() - j,
    {
        if blocks_crease_exec(first, wish_normal, second, dir, &planes[j]) {
            assert(blocks_crease(first@, wish_normal@, second@, dir@, views(planes@)[j as int]));
            return true;
        }
        j += 1;
    }
    false
}

/// Resolves `velocity` against the contact normals in `hits` (most recent
/// last). `original_direction` is the direction of the velocity before the
/// step began; a velocity no longer than `epsilon` counts as stuck.
pub fn solve_collision_planes(
    velocity: &Vec3,
    hits: &Vec<Vec3>,
    original_direction: &Vec3,
    epsilon: i64,
) -> (r: Vec3)
    requires
        is_speed(velocity@),
        is_speed(original_direction@),
        forall|k: int| 0 <= k < hits.len() ==> is_direction(#[trigger] hits@[k]@),
        0 <= epsilon <= ONE,
    ensures
        r@ == solve(velocity@, views(hits@), original_direction@, epsilon as int),
        within(r@, MAX_SPEED + CORNER_NUDGE),
{
    proof {
        lemma_len_sq_nonneg(velocity@);
        lemma_len_sq_nonneg(original_direction@);
        lemma_len_bounds_components(velocity@, MAX_SPEED as int);
        lemma_len_bounds_components(original_direction@, MAX_SPEED as int);
    }
    if velocity.length_squared() == 0 || original_direction.length_squared() == 0 {
        return Vec3::zero();
    }
    if hits.len() == 0 {
        return *velocity;
    }
    let first = hits[hits.len() - 1];
    assert(views(hits@).last() == first@);
    assert(is_direction(first@));
    if velocity.dot(&first) >= 0 {
        return *velocity;
    }
    let wish_normal = normalize_or_zero(original_direction);
    let mut planes: Vec<Vec3> = Vec::new();
    planes.push(wish_normal);
    let mut h: usize = 0;
    while h < hits.len()
        invariant
            h <= hits.len(),
            forall|k: int| 0 <= k < hits.len() ==> is_direction(#[trigger] hits@[k]@),
            is_direction(wish_normal@),
            planes@.len() == h + 1,
            views(planes@) =~= seq![wish_normal@] + views(hits@).take(h as int),
        decreases hits.len() - h,
    {
        let ghost before = views(planes@);
        planes.push(hits[h]);
        assert(views(planes@) =~= before.push(hits@[h as int]@));
        assert(views(hits@).take(h + 1) =~= views(hits@).take(h as int).push(hits@[h as int]@));
        assert(seq![wish_normal@] + views(hits@).take(h + 1) =~= (seq![wish_normal@] + views(
            hits@,
        ).take(h as int)).push(hits@[h as int]@));
        h += 1;
    }
    assert(views(hits@).take(hits.len() as int) =~= views(hits@));
    let ghost all = views(planes@);
    assert(forall|k: int| 0 <= k < planes.len() ==> is_direction(#[trigger] planes@[k]@)) by {
        assert forall|k: int| 0 <= k < planes.len() implies is_direction(#[trigger] planes@[k]@) by {
            assert(all[k] == planes@[k]@);
            if k > 0 {
                assert(all[k] == views(hits@)[k - 1]);
            }
        }
    }
    let mut vel = reject_from(velocity, &first);
    proof {
        lemma_mul_bound(epsilon as int, epsilon as int, ONE as int, ONE as int);
        lemma_mul_bound(
            (epsilon as int) * (epsilon as int),
            (epsilon as int) * (epsilon as int),
            1_000_000_000_000,
            1_000_000_000_000,
        );
    }
    let eps_4 = ((epsilon as i128) * (epsilon as i128)) * ((epsilon as i128) * (epsilon as i128));
    let ghost target = fold_planes(all, first@, wish_normal@, vel@, epsilon as int, 0);
    assert(target == solve(velocity@, views(hits@), original_direction@, epsilon as int));
    let mut i: usize = 0;
    while i < planes.len()
        invariant
            i <= planes.len(),
            all == views(planes@),
            forall|k: int| 0 <= k < planes.len() ==> is_direction(#[trigger] planes@[k]@),
            is_direction(first@),
            is_direction(wish_normal@),
            is_speed(vel@),
            0 <= epsilon <= ONE,
            eps_4 == (epsilon * epsilon) * (epsilon * epsilon),
            target == solve(velocity@, views(hits@), original_direction@, epsilon as int),
            fold_planes(all, first@, wish_normal@, vel@, epsilon as int, i as nat) == target,
        decreases planes.len() - i,
    {
        let n = planes[i];
        assert(all[i as int] == n@);
        if similar_plane(&first, &n) || similar_plane(&wish_normal, &n) {
            i += 1;
            continue;
        }
        let v = reject_from(&vel, &n);
        let v_dir = normalize_or_zero(&v);
        proof {
            lemma_speed_components(v@);
        }
        if similar_plane(&v_dir, &first) {
            let r = if v.length_squared() * ((ONE as i128) * (ONE as i128)) <= eps_4 {
                Vec3::zero()
            } else {
                v
            };
            assert(fold_step(all, first@, wish_normal@, n@, vel@, epsilon as int) == Fold::Stop(r@));
            assert(!is_redundant(first@, wish_normal@, all[i as int]));
            assert(fold_planes(all, first@, wish_normal@, vel@, epsilon as int, i as nat) == r@);
            return r;
        } else {
            let crease = first.cross(&n);
            let p = project_onto(&v, &crease);
            let p_dir = normalize_or_zero(&p);
            proof {
                lemma_speed_components(p@);
            }
            if is_corner_exec(&planes, &first, &wish_normal, &n, &p_dir) {
                proof {
                    lemma_components_bound_len(vadd(first@, n@), 2 * (ONE as int));
                }
                let nudge = rescale(&first.plus(&n), CORNER_NUDGE);
                return p.plus(&nudge);
            }
            if p.length_squared() * ((ONE as i128) * (ONE as i128)) <= eps_4 {
                assert(is_stuck(p@, epsilon as int));
                assert(fold_step(all, first@, wish_normal@, n@, vel@, epsilon as int) == Fold::Stop(
                    p@,
                ));
                assert(!is_redundant(first@, wish_normal@, all[i as int]));
                assert(fold_planes(all, first@, wish_normal@, vel@, epsilon as int, i as nat) == p@);
                return p;
            }
            vel = p;
        }
        i += 1;
    }
    proof {
        lemma_speed_components(vel@);
    }
    vel
}

proof fn lemma_speed_components(v: V3)
    requires
        is_speed(v),
    ensures
        within(v, MAX_SPEED as int),
        within(v, MAX_SPEED + CORNER_NUDGE),
        is_small(v),
        0 <= len_sq(v) <= 10_000_000_000_000_000_000_000,
{
    lemma_len_bounds_components(v, MAX_SPEED as int);
    lemma_len_sq_nonneg(v);
}

/// A nonzero vector stays nonzero when normalized.
pub proof fn lemma_normalize_nonzero(v: V3)
    requires
        len_sq(v) > 0,
    ensures
        len_sq(normalize(v)) > 0,
{
    let n = len_sq(v);
    lemma_floor_sqrt_exists(n);
    let l = floor_sqrt(n);
    assert(is_floor_sqrt(l, n));
    assert(l > 0) by (nonlinear_arith)
        requires
            n > 0,
            n < (l + 1) * (l + 1),
            l >= 0,
    ;
    lemma_len_sq_nonneg(v);
    // Some component is longer than half the length.
    let c = if 2 * v.x > l || 2 * v.x < -l {
        v.x
    } else if 2 * v.y > l || 2 * v.y < -l {
        v.y
    } else {
        v.z
    };
    assert(2 * c > l || 2 * c < -l) by {
        if !(2 * v.x > l || 2 * v.x < -l) && !(2 * v.y > l || 2 * v.y < -l) && !(2 * v.z > l || 2
            * v.z < -l) {
            assert(4 * (v.x * v.x) <= l * l) by (nonlinear_arith)
                requires
                    -l <= 2 * v.x <= l,
            ;
            assert(4 * (v.y * v.y) <= l * l) by (nonlinear_arith)
                requires
                    -l <= 2 * v.y <= l,
            ;
            assert(4 * (v.z * v.z) <= l * l) by (nonlinear_arith)
                requires
                    -l <= 2 * v.z <= l,
            ;
            assert(l * l > 0) by (nonlinear_arith)
                requires
                    l > 0,
            ;
        }
    }
    let a = c * (ONE as int);
    assert(a >= l || a <= -l) by (nonlinear_arith)
        requires
            2 * c > l || 2 * c < -l,
            a == c * 1_000_000,
            l > 0,
    ;
    lemma_div_trunc(a, l);
    assert(div_trunc(a, l) != 0) by {
        if a >= l {
            assert(a / l >= 1) by (nonlinear_arith)
                requires
                    a >= l,
                    l > 0,
            ;
        } else {
            assert((-a) / l >= 1) by (nonlinear_arith)
                requires
                    -a >= l,
                    l > 0,
            ;
        }
    }
    let r = normalize(v);
    assert(r == scale_div(v, ONE as int, l));
    assert(r.x != 0 || r.y != 0 || r.z != 0);
    lemma_len_sq_nonneg(r);
}

/// A nonzero vector is similar to itself.
pub proof fn lemma_similar_self(a: V3)
    requires
        len_sq(a) > 0,
    ensures
        similar(a, a),
{
    let l = len_sq(a);
    assert(1_000_000 * (l * l) > 998_001 * (l * l)) by (nonlinear_arith)
        requires
            l > 0,
    ;
}

/// With a single contact plane that the velocity runs into, the solve slides
/// the velocity along that plane: the result is the velocity with its
/// component along the plane's normal removed, and no other plane acts. What
/// is left along the normal is rounding only.
pub proof fn lemma_single_plane_slides(velocity: V3, normal: V3, wish: V3, epsilon: int)
    requires
        len_sq(velocity) > 0,
        len_sq(wish) > 0,
        dot(velocity, normal) < 0,
    ensures
        solve(velocity, seq![normal], wish, epsilon) == reject(velocity, normal),
        -(abs(normal.x) + abs(normal.y) + abs(normal.z)) <= dot(
            solve(velocity, seq![normal], wish, epsilon),
            normal,
        ) <= abs(normal.x) + abs(normal.y) + abs(normal.z),
{
    lemma_reject_orthogonal(velocity, normal);
    let wn = normalize(wish);
    let planes = seq![wn] + seq![normal];
    lemma_normalize_nonzero(wish);
    lemma_similar_self(wn);
    lemma_len_sq_nonneg(normal);
    if len_sq(normal) == 0 {
        assert(normal == zero());
    }
    lemma_similar_self(normal);
    let v0 = reject(velocity, normal);
    assert(planes[0] == wn);
    assert(planes[1] == normal);
    assert(is_redundant(normal, wn, planes[0]));
    assert(is_redundant(normal, wn, planes[1]));
    assert(fold_planes(planes, normal, wn, v0, epsilon, 2) == v0);
    assert(fold_planes(planes, normal, wn, v0, epsilon, 1) == v0);
    assert(fold_planes(planes, normal, wn, v0, epsilon, 0) == v0);
    assert(seq![normal].last() == normal);
}

/// Folding planes that are all redundant leaves the working velocity as it is.
proof fn lemma_fold_redundant(
    planes: Seq<V3>,
    first: V3,
    wish_normal: V3,
    vel: V3,
    epsilon: int,
    i: nat,
)
    requires
        forall|j: int| i <= j < planes.len() ==> is_redundant(first, wish_normal, #[trigger] planes[j]),
    ensures
        fold_planes(planes, first, wish_normal, vel, epsilon, i) == vel,
    decreases planes.len() - i,
{
    if i < planes.len() {
        assert(is_redundant(first, wish_normal, planes[i as int]));
        lemma_fold_redundant(planes, first, wish_normal, vel, epsilon, i + 1);
    }
}

/// When no second constraint is active (every recorded normal is a near copy
/// of the latest one or of the wish direction), the solve only slides the
/// velocity along the latest plane: planes like it are never applied again.
pub proof fn lemma_no_second_constraint_slides(
    velocity: V3,
    hits: Seq<V3>,
    wish: V3,
    epsilon: int,
)
    requires
        len_sq(velocity) > 0,
        len_sq(wish) > 0,
        hits.len() > 0,
        dot(velocity, hits.last()) < 0,
        forall|j: int|
            0 <= j < hits.len() ==> is_redundant(hits.last(), normalize(wish), #[trigger] hits[j]),
    ensures
        solve(velocity, hits, wish, epsilon) == reject(velocity, hits.last()),
{
    let wn = normalize(wish);
    let planes = seq![wn] + hits;
    lemma_normalize_nonzero(wish);
    lemma_similar_self(wn);
    assert forall|j: int| 0 <= j < planes.len() implies is_redundant(
        hits.last(),
        wn,
        #[trigger] planes[j],
    ) by {
        if j > 0 {
            assert(planes[j] == hits[j - 1]);
        }
    }
    lemma_fold_redundant(planes, hits.last(), wn, reject(velocity, hits.last()), epsilon, 0);
}

/// `|p + u| <= s + t` whenever `|p| <= s` and `|u| <= t`.
pub proof fn lemma_sum_len(p: V3, u: V3, s: int, t: int)
    requires
        s >= 0,
        t >= 0,
        len_sq(p) <= s * s,
        len_sq(u) <= t * t,
    ensures
        len_sq(vadd(p, u)) <= (s + t) * (s + t),
{
    let d = dot(p, u);
    assert(len_sq(vadd(p, u)) == len_sq(p) + 2 * d + len_sq(u)) by (nonlinear_arith)
        requires
            d == dot(p, u),
    ;
    lemma_cauchy_schwarz(p, u);
    lemma_len_sq_nonneg(p);
    lemma_len_sq_nonneg(u);
    assert(d * d <= (s * t) * (s * t)) by (nonlinear_arith)
        requires
            d * d <= len_sq(p) * len_sq(u),
            0 <= len_sq(p) <= s * s,
            0 <= len_sq(u) <= t * t,
    ;
    assert(s * t >= 0) by (nonlinear_arith)
        requires
            s >= 0,
            t >= 0,
    ;
    lemma_root_bound(d, s * t);
    assert((s + t) * (s + t) == s * s + 2 * (s * t) + t * t) by (nonlinear_arith);
}

/// Folding never lengthens the working velocity by more than twice the corner nudge.
proof fn lemma_fold_len(
    planes: Seq<V3>,
    first: V3,
    wish_normal: V3,
    vel: V3,
    epsilon: int,
    i: nat,
    s: int,
)
    requires
        s >= 0,
        len_sq(vel) <= s * s,
    ensures
        len_sq(fold_planes(planes, first, wish_normal, vel, epsilon, i)) <= (s + 2 * CORNER_NUDGE)
            * (s + 2 * CORNER_NUDGE),
    decreases planes.len() - i,
{
    let t = 2 * CORNER_NUDGE;
    assert(s * s <= (s + t) * (s + t)) by (nonlinear_arith)
        requires
            s >= 0,
            t >= 0,
    ;
    if i < planes.len() {
        if is_redundant(first, wish_normal, planes[i as int]) {
            lemma_fold_len(planes, first, wish_normal, vel, epsilon, i + 1, s);
        } else {
            let second = planes[i as int];
            let v = reject(vel, second);
            lemma_reject_shortens(vel, second);
            let p = project(v, cross(first, second));
            lemma_project_shortens(v, cross(first, second));
            if !similar(normalize(v), first) && is_corner(
                planes,
                first,
                wish_normal,
                second,
                normalize(p),
            ) {
                let u = corner_nudge(first, second);
                lemma_with_length_within(vadd(first, second), CORNER_NUDGE as int);
                lemma_components_bound_len(u, CORNER_NUDGE as int);
                assert(3 * ((CORNER_NUDGE as int) * (CORNER_NUDGE as int)) <= 20_000int * 20_000int);
                lemma_sum_len(p, u, s, 20_000);
            }
            lemma_len_sq_nonneg(zero());
            match fold_step(planes, first, wish_normal, second, vel, epsilon) {
                Fold::Stop(r) => {},
                Fold::Continue(w) => {
                    lemma_fold_len(planes, first, wish_normal, w, epsilon, i + 1, s);
                },
            }
        }
    }
}

/// Solving never lengthens the velocity by more than twice the corner nudge.
/// In fixed point the nudge itself is only bounded per component (each at
/// most [`CORNER_NUDGE`]), so its length may reach `sqrt(3)` times the nudge:
/// twice the nudge is the bound that rounding allows.
pub proof fn lemma_solve_len(velocity: V3, hits: Seq<V3>, wish: V3, epsilon: int, s: int)
    requires
        s >= 0,
        len_sq(velocity) <= s * s,
    ensures
        len_sq(solve(velocity, hits, wish, epsilon)) <= (s + 2 * CORNER_NUDGE) * (s + 2
            * CORNER_NUDGE),
{
    let t = 2 * CORNER_NUDGE;
    assert(s * s <= (s + t) * (s + t)) by (nonlinear_arith)
        requires
            s >= 0,
            t >= 0,
    ;
    lemma_len_sq_nonneg(zero());
    if len_sq(velocity) != 0 && len_sq(wish) != 0 && hits.len() != 0 && dot(velocity, hits.last())
        < 0 {
        let wn = normalize(wish);
        lemma_reject_shortens(velocity, hits.last());
        lemma_fold_len(
            seq![wn] + hits,
            hits.last(),
            wn,
            reject(velocity, hits.last()),
            epsilon,
            0,
            s,
        );
    }
}

} // verus!
