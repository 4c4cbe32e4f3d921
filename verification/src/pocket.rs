//! Pockets: fixed capture zones at the table's corners and mid-rails.
use vstd::prelude::*;

use crate::ball::Ball;
use crate::constants::{CAPTURE_DEN, CAPTURE_NUM};
use crate::geom::{tdiv, Vec2i};

verus! {

#[derive(Clone, Copy, Debug, PartialEq, Eq, Structural)]
pub struct Pocket {
    pub pos: Vec2i,
    pub radius: i64,
}

/// The effective capture radius: deliberately smaller than the drawn
/// pocket mouth, so balls must travel visibly into the pocket.
pub open spec fn capture_radius_of(p: Pocket) -> int {
    tdiv(p.radius * CAPTURE_NUM, CAPTURE_DEN as int)
}

/// A pocket captures a ball whose center is strictly within the
/// effective capture radius.
pub open spec fn captures(p: Pocket, b: Ball) -> bool {
    let dx = b.pos.x - p.pos.x;
    let dy = b.pos.y - p.pos.y;
    dx * dx + dy * dy < capture_radius_of(p) * capture_radius_of(p)
}

impl Pocket {
    pub fn new(x: i64, y: i64, radius: i64) -> (r: Pocket)
        ensures
            r == (Pocket { pos: Vec2i { x, y }, radius }),
    {
        Pocket { pos: Vec2i { x, y }, radius }
    }
}

} // verus!
