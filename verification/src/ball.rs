//! A single ball: its kinematic state, the per-tick motion integrator
//! (translation, friction decay, velocity floor) and the cushion rebound.
use vstd::prelude::*;

use crate::constants::{
    CUSHION_DEN, CUSHION_NUM, DIM_LIMIT, ENERGY_LIMIT, FRICTION_DEN, FRICTION_NUM, MIN_SPEED_SQ,
    RADIUS_LIMIT,
};
use crate::geom::{lemma_scale_le, lemma_tdiv_bounds, tdiv, tdiv64, Vec2i};

verus! {

#[derive(Clone, Copy, Debug, PartialEq, Eq, Structural)]
pub struct Ball {
    pub pos: Vec2i,
    pub vel: Vec2i,
    pub radius: i64,
    /// 0 is the cue ball, 1-7 the solids, 8 the eight ball, 9-15 the stripes.
    pub number: u8,
    pub is_striped: bool,
    pub in_pocket: bool,
}

/// Solid object-ball numbers.
pub open spec fn is_solid_number(n: u8) -> bool {
    1 <= n <= 7
}

/// Striped object-ball numbers.
pub open spec fn is_stripe_number(n: u8) -> bool {
    9 <= n <= 15
}

/// The squared speed of a ball; the simulation's measure of its
/// kinetic energy (all balls have equal mass).
pub open spec fn energy(b: Ball) -> int {
    b.vel.norm_sq()
}

/// The summed squared speeds of a sequence of balls.
pub open spec fn total_energy(s: Seq<Ball>) -> int
    decreases s.len(),
{
    if s.len() == 0 {
        0
    } else {
        total_energy(s.drop_last()) + energy(s.last())
    }
}

pub proof fn lemma_energy_nonneg(b: Ball)
    ensures
        energy(b) >= 0,
{
    assert(b.vel.x * b.vel.x >= 0 && b.vel.y * b.vel.y >= 0) by (nonlinear_arith);
}

pub proof fn lemma_total_energy_bounds(s: Seq<Ball>)
    ensures
        total_energy(s) >= 0,
        forall|i: int| 0 <= i < s.len() ==> energy(s[i]) <= total_energy(s),
    decreases s.len(),
{
    if s.len() > 0 {
        lemma_total_energy_bounds(s.drop_last());
        lemma_energy_nonneg(s.last());
        assert forall|i: int| 0 <= i < s.len() implies energy(s[i]) <= total_energy(s) by {
            if i < s.len() - 1 {
                assert(s.drop_last()[i] == s[i]);
            }
        }
    }
}

/// Replacing one ball adjusts the total by the energy difference.
pub proof fn lemma_total_energy_update(s: Seq<Ball>, i: int, b: Ball)
    requires
        0 <= i < s.len(),
    ensures
        total_energy(s.update(i, b)) == total_energy(s) - energy(s[i]) + energy(b),
    decreases s.len(),
{
    let t = s.update(i, b);
    if i == s.len() - 1 {
        assert(t.drop_last() =~= s.drop_last());
        assert(t.last() == b);
    } else {
        assert(t.drop_last() =~= s.drop_last().update(i, b));
        assert(t.last() == s.last());
        lemma_total_energy_update(s.drop_last(), i, b);
        assert(s.drop_last()[i] == s[i]);
    }
}

/// Two distinct balls never carry more than the whole table's energy.
pub proof fn lemma_total_energy_pair(s: Seq<Ball>, i: int, j: int)
    requires
        0 <= i < j < s.len(),
    ensures
        energy(s[i]) + energy(s[j]) <= total_energy(s),
    decreases s.len(),
{
    lemma_total_energy_bounds(s.drop_last());
    if j == s.len() - 1 {
        assert(s.drop_last()[i] == s[i]);
    } else {
        lemma_total_energy_pair(s.drop_last(), i, j);
        lemma_energy_nonneg(s.last());
        assert(s.drop_last()[i] == s[i] && s.drop_last()[j] == s[j]);
    }
}

/// A sequence of balls at rest carries no energy.
pub proof fn lemma_total_energy_zero(s: Seq<Ball>)
    requires
        forall|i: int| 0 <= i < s.len() ==> s[i].vel == (Vec2i { x: 0i64, y: 0i64 }),
    ensures
        total_energy(s) == 0,
    decreases s.len(),
{
    if s.len() > 0 {
        assert(s.last() == s[s.len() - 1]);
        assert forall|i: int| 0 <= i < s.drop_last().len() implies s.drop_last()[i].vel == (Vec2i {
            x: 0i64,
            y: 0i64,
        }) by {
            assert(s.drop_last()[i] == s[i]);
        }
        assert(s.last().vel.x == 0i64 && s.last().vel.y == 0i64);
        assert(energy(s.last()) == 0) by (nonlinear_arith)
            requires
                s.last().vel.x == 0i64,
                s.last().vel.y == 0i64,
        ;
        lemma_total_energy_zero(s.drop_last());
    }
}

/// Positions a tick may ever see: the table plus a generous margin.
pub open spec fn pos_in_range(p: Vec2i) -> bool {
    -0x800_0000 <= p.x <= 0x800_0000 && -0x800_0000 <= p.y <= 0x800_0000
}

/// One tick of free motion: translate by the velocity, decay the
/// velocity by the friction factor, and clamp a crawl to a full stop.
pub open spec fn advance_spec(b: Ball) -> Ball {
    if b.in_pocket {
        b
    } else {
        let p = Vec2i { x: (b.pos.x + b.vel.x) as i64, y: (b.pos.y + b.vel.y) as i64 };
        let slowed = Vec2i {
            x: tdiv(b.vel.x * FRICTION_NUM, FRICTION_DEN as int) as i64,
            y: tdiv(b.vel.y * FRICTION_NUM, FRICTION_DEN as int) as i64,
        };
        let v = if slowed.norm_sq() < MIN_SPEED_SQ {
            Vec2i { x: 0i64, y: 0i64 }
        } else {
            slowed
        };
        Ball { pos: p, vel: v, ..b }
    }
}

/// Cushion rebound, one axis at a time: clamp the position back into
/// the table and reflect that axis's velocity, scaled by the cushion
/// elasticity. Corner impacts reflect both axes.
pub open spec fn wall_spec(b: Ball, width: i64, height: i64) -> Ball {
    if b.in_pocket {
        b
    } else {
        let (x, vx) = if b.pos.x + b.radius > width {
            ((width - b.radius) as i64, (-tdiv(b.vel.x * CUSHION_NUM, CUSHION_DEN as int)) as i64)
        } else if b.pos.x - b.radius < 0 {
            (b.radius, (-tdiv(b.vel.x * CUSHION_NUM, CUSHION_DEN as int)) as i64)
        } else {
            (b.pos.x, b.vel.x)
        };
        let (y, vy) = if b.pos.y + b.radius > height {
            ((height - b.radius) as i64, (-tdiv(b.vel.y * CUSHION_NUM, CUSHION_DEN as int)) as i64)
        } else if b.pos.y - b.radius < 0 {
            (b.radius, (-tdiv(b.vel.y * CUSHION_NUM, CUSHION_DEN as int)) as i64)
        } else {
            (b.pos.y, b.vel.y)
        };
        Ball { pos: Vec2i { x, y }, vel: Vec2i { x: vx, y: vy }, ..b }
    }
}

/// A ball at rest stays put: integrating a tick of a ball whose
/// velocity is zero changes neither its position nor its velocity.
pub proof fn lemma_rest_ball_stays_put(b: Ball)
    requires
        b.vel == (Vec2i { x: 0i64, y: 0i64 }),
    ensures
        advance_spec(b).pos == b.pos,
        advance_spec(b).vel == b.vel,
{
    lemma_tdiv_bounds(0, FRICTION_DEN as int);
}

/// Scaling a shot vector by the ball elasticity keeps it within the
/// incoming energy and component bounds.
pub proof fn lemma_scaled_shot(vx: int, vy: int)
    requires
        -0x2_0000 <= vx <= 0x2_0000,
        -0x2_0000 <= vy <= 0x2_0000,
    ensures
        tdiv(vx * 19, 20) * tdiv(vx * 19, 20) + tdiv(vy * 19, 20) * tdiv(vy * 19, 20) <= vx * vx
            + vy * vy,
        -0x2_0000 <= tdiv(vx * 19, 20) <= 0x2_0000,
        -0x2_0000 <= tdiv(vy * 19, 20) <= 0x2_0000,
{
    lemma_scale_le(vx, 19, 20);
    lemma_scale_le(vy, 19, 20);
}

/// A squared norm under the energy cap bounds each component.
pub proof fn lemma_component_bound(v: Vec2i)
    requires
        v.norm_sq() <= ENERGY_LIMIT,
    ensures
        -0x2_0000 <= v.x <= 0x2_0000,
        -0x2_0000 <= v.y <= 0x2_0000,
{
    assert(v.x * v.x >= 0 && v.y * v.y >= 0) by (nonlinear_arith);
    assert(v.x * v.x <= ENERGY_LIMIT && v.y * v.y <= ENERGY_LIMIT);
    assert(-0x2_0000 <= v.x <= 0x2_0000) by (nonlinear_arith)
        requires
            v.x * v.x <= 0x4_0000_0000,
    ;
    assert(-0x2_0000 <= v.y <= 0x2_0000) by (nonlinear_arith)
        requires
            v.y * v.y <= 0x4_0000_0000,
    ;
}

impl Ball {
    pub fn new(x: i64, y: i64, number: u8, is_striped: bool, radius: i64) -> (r: Ball)
        ensures
            r == (Ball {
                pos: Vec2i { x, y },
                vel: Vec2i { x: 0i64, y: 0i64 },
                radius,
                number,
                is_striped,
                in_pocket: false,
            }),
    {
        Ball {
            pos: Vec2i { x, y },
            vel: Vec2i { x: 0, y: 0 },
            radius,
            number,
            is_striped,
            in_pocket: false,
        }
    }

    /// Integrate one tick of this ball's free motion.
    pub fn update_position(&mut self)
        requires
            pos_in_range(old(self).pos),
            energy(*old(self)) <= ENERGY_LIMIT,
        ensures
            *final(self) == advance_spec(*old(self)),
            energy(*final(self)) <= energy(*old(self)),
            old(self).vel == (Vec2i { x: 0i64, y: 0i64 }) ==> final(self).pos == old(self).pos,
    {
        if self.in_pocket {
            return ;
        }
        proof {
            lemma_component_bound(self.vel);
        }
        self.pos.x = self.pos.x + self.vel.x;
        self.pos.y = self.pos.y + self.vel.y;
        proof {
            lemma_scale_le(self.vel.x as int, FRICTION_NUM as int, FRICTION_DEN as int);
            lemma_scale_le(self.vel.y as int, FRICTION_NUM as int, FRICTION_DEN as int);
        }
        let sx = tdiv64(self.vel.x * FRICTION_NUM, FRICTION_DEN);
        let sy = tdiv64(self.vel.y * FRICTION_NUM, FRICTION_DEN);
        self.vel.x = sx;
        self.vel.y = sy;
        assert(0 <= sx * sx <= 0x100_0000_0000 && 0 <= sy * sy <= 0x100_0000_0000)
            by (nonlinear_arith)
            requires
                -0x10_0000 <= sx <= 0x10_0000,
                -0x10_0000 <= sy <= 0x10_0000,
        ;
        if sx * sx + sy * sy < MIN_SPEED_SQ {
            self.vel.x = 0;
            self.vel.y = 0;
        }
    }

    /// Rebound off the table cushions, per axis.
    pub fn check_wall_collision(&mut self, table_width: i64, table_height: i64)
        requires
            pos_in_range(old(self).pos),
            energy(*old(self)) <= ENERGY_LIMIT,
            1 <= old(self).radius <= RADIUS_LIMIT,
            2 * old(self).radius <= table_width <= DIM_LIMIT,
            2 * old(self).radius <= table_height <= DIM_LIMIT,
        ensures
            *final(self) == wall_spec(*old(self), table_width, table_height),
            energy(*final(self)) <= energy(*old(self)),
            !old(self).in_pocket ==> old(self).radius <= final(self).pos.x <= table_width - old(
                self,
            ).radius,
            !old(self).in_pocket ==> old(self).radius <= final(self).pos.y <= table_height - old(
                self,
            ).radius,
    {
        if self.in_pocket {
            return ;
        }
        proof {
            lemma_component_bound(self.vel);
            lemma_scale_le(self.vel.x as int, CUSHION_NUM as int, CUSHION_DEN as int);
            lemma_scale_le(self.vel.y as int, CUSHION_NUM as int, CUSHION_DEN as int);
        }
        if self.pos.x + self.radius > table_width {
            self.pos.x = table_width - self.radius;
            self.vel.x = -tdiv64(self.vel.x * CUSHION_NUM, CUSHION_DEN);
        } else if self.pos.x - self.radius < 0 {
            self.pos.x = self.radius;
            self.vel.x = -tdiv64(self.vel.x * CUSHION_NUM, CUSHION_DEN);
        }
        if self.pos.y + self.radius > table_height {
            self.pos.y = table_height - self.radius;
            self.vel.y = -tdiv64(self.vel.y * CUSHION_NUM, CUSHION_DEN);
        } else if self.pos.y - self.radius < 0 {
            self.pos.y = self.radius;
            self.vel.y = -tdiv64(self.vel.y * CUSHION_NUM, CUSHION_DEN);
        }
    }
}

} // verus!
