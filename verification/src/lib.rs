//! An 8-ball pool match engine: fixed-point 2D ball physics on a bounded
//! table (friction, cushion rebound, pairwise elastic collisions, pocket
//! capture) together with the discrete rule engine that adjudicates each
//! shot once the balls settle (group assignment, turn passing, 8-ball
//! legality and match termination).
//!
//! All coordinates, velocities and radii are integers in fixed-point
//! table units, so every step of the simulation is exact and verified.
pub mod ball;
pub mod config;
pub mod constants;
pub mod game;
pub mod geom;
pub mod physics;
pub mod pocket;
pub mod rules;
pub mod types;
