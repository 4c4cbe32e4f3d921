//! Tuning constants of the simulation, in fixed-point table units.
//!
//! Fractional coefficients are given as numerator/denominator pairs so
//! that every multiplication stays in exact integer arithmetic.
use vstd::prelude::*;

verus! {

/// Per-tick friction decay of velocity: 98/100.
pub const FRICTION_NUM: i64 = 98;

pub const FRICTION_DEN: i64 = 100;

/// Below this speed a ball is considered at rest (squared form below).
pub const MIN_SPEED: i64 = 50;

/// `MIN_SPEED * MIN_SPEED`.
pub const MIN_SPEED_SQ: i64 = 2500;

/// Cushion rebound keeps 4/5 of the impact speed.
pub const CUSHION_NUM: i64 = 4;

pub const CUSHION_DEN: i64 = 5;

/// Ball-to-ball impacts keep 19/20 of the normal speed.
pub const BALL_ELASTICITY_NUM: i64 = 19;

pub const BALL_ELASTICITY_DEN: i64 = 20;

/// A pocket's capture radius is 9/10 of its drawn radius, so a ball
/// must travel into the pocket mouth rather than graze its rim.
pub const CAPTURE_NUM: i64 = 9;

pub const CAPTURE_DEN: i64 = 10;

/// A pocket's drawn radius is 9/5 (1.8 times) the ball radius.
pub const POCKET_RADIUS_NUM: i64 = 9;

pub const POCKET_RADIUS_DEN: i64 = 5;

/// The weakest accepted strike, squared: shots slower than this are
/// rejected and the player keeps aiming.
pub const MIN_SHOT_SPEED_SQ: i64 = 562500;

/// Largest accepted ball radius.
pub const RADIUS_LIMIT: i64 = 0x1_0000;

/// Largest accepted table width or height.
pub const DIM_LIMIT: i64 = 0x40_0000;

/// Cap on the summed squared speeds of all balls; every arithmetic
/// step of the collision resolver fits in `i64` under this cap.
pub const ENERGY_LIMIT: i64 = 0x4_0000_0000;

/// Positions may stray at most this far outside the table during a
/// tick (de-penetration pushes are bounded by the ball diameters).
pub const POS_SLOP: i64 = 0x400_0000;

} // verus!
