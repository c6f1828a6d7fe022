//! A kinematic character movement solver.
//!
//! Given a capsule-like mover, a wish velocity and a world that answers shape
//! casts, the solver computes a collision-respecting displacement for one
//! simulation step, classifies the mover as grounded or airborne, climbs
//! bounded steps and follows moving platforms.
//!
//! All geometry is fixed point (see [`vector::ONE`]) so that every result is
//! exact and reproducible. The world itself stays outside: the loop in
//! [`slide`] asks for one cast at a time and is handed back what it struck.
//!
//! - [`vector`]: fixed-point vectors, their integer model, and rounding facts.
//! - [`sweep`]: what a cast struck and the safe distance toward it.
//! - [`planes`]: resolving a velocity against the contact planes of a step.
//! - [`slide`]: the move-and-slide loop as a state machine.
//! - [`ground`]: walkability, settling onto ground, and step-up climbs.
//! - [`character`]: the mover's state, impulses and per-tick decisions.
pub mod character;
pub mod ground;
pub mod planes;
pub mod slide;
pub mod sweep;
pub mod vector;
