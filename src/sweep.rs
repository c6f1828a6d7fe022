//! The sweep primitive: what a shape cast found, and how far it is safe to go.
use vstd::prelude::*;
use crate::vector::{Vec3};

verus! {

/// Opaque identity of a surface in the world (a handle, never an owner).
#[derive(Clone, Copy, Debug, PartialEq, Eq, Structural)]
pub struct SurfaceId(pub u64);

/// The first surface a shape cast struck.
#[derive(Clone, Copy, Debug, PartialEq, Eq, Structural)]
pub struct Hit {
    /// Distance travelled along the cast direction before contact.
    pub distance: i64,
    /// Outward surface normal at the contact.
    pub normal: Vec3,
    pub surface: SurfaceId,
}

/// A hit together with the distance that is safe to travel toward it.
#[derive(Clone, Copy, Debug, PartialEq, Eq, Structural)]
pub struct SweepHit {
    pub safe_distance: i64,
    pub hit: Hit,
}

/// `max(distance - epsilon, 0)`.
pub open spec fn safe_distance_of(distance: int, epsilon: int) -> int {
    if distance - epsilon > 0 {
        distance - epsilon
    } else {
        0
    }
}

/// The distance that is safe to travel toward a hit at `distance`: `epsilon`
/// short of it, and never negative.
pub fn safe_distance(distance: i64, epsilon: i64) -> (r: i64)
    requires
        epsilon >= 0,
    ensures
        r == safe_distance_of(distance as int, epsilon as int),
        r >= 0,
        r <= distance || r == 0,
        distance >= epsilon ==> r == distance - epsilon,
{
    if distance > epsilon {
        distance - epsilon
    } else {
        0
    }
}

/// Completes a shape cast: given what the cast struck (if anything), returns
/// the hit with its safe travel distance.
pub fn character_sweep(cast: Option<Hit>, epsilon: i64) -> (r: Option<SweepHit>)
    requires
        epsilon >= 0,
    ensures
        cast is None <==> r is None,
        cast is Some ==> r == Some(
            SweepHit {
                safe_distance: safe_distance_of(cast->0.distance as int, epsilon as int) as i64,
                hit: cast->0,
            },
        ),
{
    match cast {
        None => None,
        Some(hit) => Some(SweepHit { safe_distance: safe_distance(hit.distance, epsilon), hit }),
    }
}

/// The safe distance is never negative, and whenever the hit lies at least
/// `epsilon` away it is no more than `distance - epsilon`, so at least
/// `epsilon` of clearance remains.
pub proof fn lemma_safe_distance_bounds(distance: int, epsilon: int)
    requires
        epsilon >= 0,
    ensures
        safe_distance_of(distance, epsilon) >= 0,
        distance >= epsilon ==> safe_distance_of(distance, epsilon) <= distance - epsilon,
        distance >= epsilon ==> distance - safe_distance_of(distance, epsilon) >= epsilon,
{
}

} // verus!
