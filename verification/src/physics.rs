//! Pairwise elastic ball collisions: overlap detection, positional
//! de-penetration along the line of centers, and the equal-mass
//! exchange of the normal velocity components.
use vstd::prelude::*;

use crate::ball::{
    advance_spec, energy, lemma_component_bound, lemma_energy_nonneg, lemma_total_energy_bounds,
    lemma_total_energy_pair, lemma_total_energy_update, lemma_total_energy_zero, pos_in_range,
    total_energy, wall_spec, Ball,
};
use crate::constants::{
    BALL_ELASTICITY_DEN, BALL_ELASTICITY_NUM, CAPTURE_DEN, CAPTURE_NUM, DIM_LIMIT, ENERGY_LIMIT,
    MIN_SPEED_SQ, RADIUS_LIMIT,
};
use crate::game::{wf_ball, wf_pocket, Game};
use crate::geom::{
    cdiv_away, cdiv_away64, isqrt64, lemma_cdiv_away_bounds, lemma_scale_le, lemma_sqrt_of,
    lemma_tdiv_bounds, sqrt_of, tdiv, tdiv64, Vec2i,
};
use crate::pocket::{captures, Pocket};
use crate::rules::turn_end_spec;
use crate::types::{GameState, PlayerId};

verus! {

/// Two balls overlap enough to collide: both live, their centers
/// strictly closer than the sum of the radii, but not coincident.
pub open spec fn colliding(b1: Ball, b2: Ball) -> bool {
    &&& !b1.in_pocket
    &&& !b2.in_pocket
    &&& {
        let dx = b2.pos.x - b1.pos.x;
        let dy = b2.pos.y - b1.pos.y;
        let sum = b1.radius + b2.radius;
        1 <= dx * dx + dy * dy < sum * sum
    }
}

/// The exact outcome of resolving one colliding pair.
///
/// Both balls are pushed apart along the line of centers by half the
/// overlap each (rounded away from zero, so the push is never short),
/// and the velocity components along that line are swapped, scaled by
/// the ball elasticity; the tangential components pass through.
pub open spec fn collide_spec(b1: Ball, b2: Ball) -> (Ball, Ball) {
    if !colliding(b1, b2) {
        (b1, b2)
    } else {
        let dx = b2.pos.x - b1.pos.x;
        let dy = b2.pos.y - b1.pos.y;
        let d2 = dx * dx + dy * dy;
        let sum = b1.radius + b2.radius;
        let dist = sqrt_of(d2 as nat) as int;
        let oh = tdiv(sum - dist, 2);
        let cx = cdiv_away(dx * oh, dist);
        let cy = cdiv_away(dy * oh, dist);
        let dn1 = b1.vel.x * dx + b1.vel.y * dy;
        let dn2 = b2.vel.x * dx + b2.vel.y * dy;
        let dt1 = b1.vel.y * dx - b1.vel.x * dy;
        let dt2 = b2.vel.y * dx - b2.vel.x * dy;
        let e1 = tdiv(dn1 * BALL_ELASTICITY_NUM, BALL_ELASTICITY_DEN as int);
        let e2 = tdiv(dn2 * BALL_ELASTICITY_NUM, BALL_ELASTICITY_DEN as int);
        let a1 = Ball {
            pos: Vec2i { x: (b1.pos.x - cx) as i64, y: (b1.pos.y - cy) as i64 },
            vel: Vec2i {
                x: tdiv(-dy * dt1 + dx * e2, d2) as i64,
                y: tdiv(dx * dt1 + dy * e2, d2) as i64,
            },
            ..b1
        };
        let a2 = Ball {
            pos: Vec2i { x: (b2.pos.x + cx) as i64, y: (b2.pos.y + cy) as i64 },
            vel: Vec2i {
                x: tdiv(-dy * dt2 + dx * e1, d2) as i64,
                y: tdiv(dx * dt2 + dy * e1, d2) as i64,
            },
            ..b2
        };
        (a1, a2)
    }
}

/// Truncating division shrinks: the quotient times the divisor stays
/// within the dividend, in squares.
proof fn lemma_tdiv_sq(a: int, d: int)
    requires
        d > 0,
    ensures
        (d * tdiv(a, d)) * (d * tdiv(a, d)) <= a * a,
{
    lemma_tdiv_bounds(a, d);
    let q = tdiv(a, d);
    if a >= 0 {
        assert((d * q) * (d * q) <= a * a) by (nonlinear_arith)
            requires
                0 <= d * q <= a,
        ;
    } else {
        assert((d * q) * (d * q) <= a * a) by (nonlinear_arith)
            requires
                a <= d * q <= 0,
        ;
    }
}

proof fn lemma_sq_add(a: int, b: int)
    by (nonlinear_arith)
    ensures
        (a + b) * (a + b) == a * a + 2 * (a * b) + b * b,
{
}

proof fn lemma_sq_sub(a: int, b: int)
    by (nonlinear_arith)
    ensures
        (a - b) * (a - b) == a * a - 2 * (a * b) + b * b,
{
}

proof fn lemma_mul_sq(a: int, b: int)
    by (nonlinear_arith)
    ensures
        (a * b) * (a * b) == (a * a) * (b * b),
{
}

proof fn lemma_mul_exchange(a: int, b: int, c: int, d: int)
    by (nonlinear_arith)
    ensures
        (a * b) * (c * d) == (c * b) * (a * d),
{
}

proof fn lemma_distrib(p: int, q: int, r: int, s: int)
    by (nonlinear_arith)
    ensures
        (p + q) * (r + s) == p * r + p * s + q * r + q * s,
{
}

proof fn lemma_neg_mul(a: int, b: int)
    by (nonlinear_arith)
    ensures
        (-a) * b == -(a * b),
{
}

/// An orthogonal-decomposition identity: projecting a vector onto the
/// line of centers and its perpendicular preserves the squared norm,
/// scaled by the squared length of the axis.
proof fn lemma_decompose(vx: int, vy: int, dx: int, dy: int)
    ensures
        (vx * dx + vy * dy) * (vx * dx + vy * dy) + (vy * dx - vx * dy) * (vy * dx - vx * dy) == (
        vx * vx + vy * vy) * (dx * dx + dy * dy),
{
    lemma_sq_add(vx * dx, vy * dy);
    lemma_sq_sub(vy * dx, vx * dy);
    lemma_mul_sq(vx, dx);
    lemma_mul_sq(vy, dy);
    lemma_mul_sq(vy, dx);
    lemma_mul_sq(vx, dy);
    lemma_mul_exchange(vx, dx, vy, dy);
    lemma_distrib(vx * vx, vy * vy, dx * dx, dy * dy);
}

/// Recombining normal and tangential parts along an axis of squared
/// length `d2` yields a squared norm of `d2` times the parts' squares.
proof fn lemma_recompose(t: int, e: int, dx: int, dy: int, d2: int)
    requires
        d2 == dx * dx + dy * dy,
    ensures
        (-dy * t + dx * e) * (-dy * t + dx * e) + (dx * t + dy * e) * (dx * t + dy * e) == d2 * (t
            * t + e * e),
{
    lemma_neg_mul(dy, t);
    assert(-dy * t + dx * e == dx * e - dy * t);
    lemma_sq_sub(dx * e, dy * t);
    lemma_sq_add(dx * t, dy * e);
    lemma_mul_sq(dx, e);
    lemma_mul_sq(dy, t);
    lemma_mul_sq(dx, t);
    lemma_mul_sq(dy, e);
    lemma_mul_exchange(dx, e, dy, t);
    lemma_distrib(dx * dx, dy * dy, t * t, e * e);
}

/// Resolving a collision never creates kinetic energy: the summed
/// squared speeds of the pair do not increase.
proof fn lemma_pair_energy(b1: Ball, b2: Ball)
    requires
        colliding(b1, b2),
        energy(b1) + energy(b2) <= ENERGY_LIMIT,
        1 <= b1.radius + b2.radius <= 2 * RADIUS_LIMIT,
    ensures
        ({
            let (a1, a2) = collide_spec(b1, b2);
            energy(a1) + energy(a2) <= energy(b1) + energy(b2)
        }),
{
    let dx = b2.pos.x - b1.pos.x;
    let dy = b2.pos.y - b1.pos.y;
    let d2 = dx * dx + dy * dy;
    let dn1 = b1.vel.x * dx + b1.vel.y * dy;
    let dn2 = b2.vel.x * dx + b2.vel.y * dy;
    let dt1 = b1.vel.y * dx - b1.vel.x * dy;
    let dt2 = b2.vel.y * dx - b2.vel.x * dy;
    let e1 = tdiv(dn1 * BALL_ELASTICITY_NUM, BALL_ELASTICITY_DEN as int);
    let e2 = tdiv(dn2 * BALL_ELASTICITY_NUM, BALL_ELASTICITY_DEN as int);
    let n1x = -dy * dt1 + dx * e2;
    let n1y = dx * dt1 + dy * e2;
    let n2x = -dy * dt2 + dx * e1;
    let n2y = dx * dt2 + dy * e1;
    let v1x = tdiv(n1x, d2);
    let v1y = tdiv(n1y, d2);
    let v2x = tdiv(n2x, d2);
    let v2y = tdiv(n2y, d2);

    lemma_collide_fits(b1, b2);
    assert(energy(b1) >= 0 && energy(b2) >= 0) by (nonlinear_arith);
    lemma_component_bound(b1.vel);
    lemma_component_bound(b2.vel);
    lemma_mul_bounds_for_exec(b1.vel.x as int, b1.vel.y as int, dx, dy);
    lemma_mul_bounds_for_exec(b2.vel.x as int, b2.vel.y as int, dx, dy);
    lemma_scale_le(dn1, BALL_ELASTICITY_NUM as int, BALL_ELASTICITY_DEN as int);
    lemma_scale_le(dn2, BALL_ELASTICITY_NUM as int, BALL_ELASTICITY_DEN as int);
    lemma_mul_bounds_for_numer(dy, dt1, dx, e2);
    lemma_mul_bounds_for_numer(dy, dt2, dx, e1);
    lemma_mul_bounds_for_numer(dx, dt1, dy, e2);
    lemma_mul_bounds_for_numer(dx, dt2, dy, e1);
    lemma_tdiv_bounds(n1x, d2);
    lemma_tdiv_bounds(n1y, d2);
    lemma_tdiv_bounds(n2x, d2);
    lemma_tdiv_bounds(n2y, d2);
    lemma_scale_le(dn1, BALL_ELASTICITY_NUM as int, BALL_ELASTICITY_DEN as int);
    lemma_scale_le(dn2, BALL_ELASTICITY_NUM as int, BALL_ELASTICITY_DEN as int);
    lemma_decompose(b1.vel.x as int, b1.vel.y as int, dx, dy);
    lemma_decompose(b2.vel.x as int, b2.vel.y as int, dx, dy);
    lemma_recompose(dt1, e2, dx, dy, d2);
    lemma_recompose(dt2, e1, dx, dy, d2);
    lemma_tdiv_sq(n1x, d2);
    lemma_tdiv_sq(n1y, d2);
    lemma_tdiv_sq(n2x, d2);
    lemma_tdiv_sq(n2y, d2);

    // The recombined numerators carry no more energy than the inputs,
    // scaled by d2 twice.
    let s = dt1 * dt1 + e2 * e2 + dt2 * dt2 + e1 * e1;
    let t = dt1 * dt1 + dn1 * dn1 + dt2 * dt2 + dn2 * dn2;
    assert(n1x * n1x + n1y * n1y + n2x * n2x + n2y * n2y == d2 * s) by (nonlinear_arith)
        requires
            n1x * n1x + n1y * n1y == d2 * (dt1 * dt1 + e2 * e2),
            n2x * n2x + n2y * n2y == d2 * (dt2 * dt2 + e1 * e1),
            s == dt1 * dt1 + e2 * e2 + dt2 * dt2 + e1 * e1,
    ;
    assert(s <= t);
    assert(d2 * s <= d2 * t) by (nonlinear_arith)
        requires
            s <= t,
            d2 >= 1,
    ;
    assert(d2 * t == d2 * d2 * (energy(b1) + energy(b2))) by (nonlinear_arith)
        requires
            t == dt1 * dt1 + dn1 * dn1 + dt2 * dt2 + dn2 * dn2,
            dn1 * dn1 + dt1 * dt1 == energy(b1) * d2,
            dn2 * dn2 + dt2 * dt2 == energy(b2) * d2,
    ;
    assert(n1x * n1x + n1y * n1y + n2x * n2x + n2y * n2y <= d2 * d2 * (energy(b1) + energy(b2)));
    // Dividing each component by d2 divides the energy by d2 squared.
    lemma_component_energy(n1x, d2, v1x);
    lemma_component_energy(n1y, d2, v1y);
    lemma_component_energy(n2x, d2, v2x);
    lemma_component_energy(n2y, d2, v2y);
    assert((v1x * v1x + v1y * v1y + v2x * v2x + v2y * v2y) * (d2 * d2) <= n1x * n1x + n1y * n1y
        + n2x * n2x + n2y * n2y) by (nonlinear_arith)
        requires
            (v1x * v1x) * (d2 * d2) <= n1x * n1x,
            (v1y * v1y) * (d2 * d2) <= n1y * n1y,
            (v2x * v2x) * (d2 * d2) <= n2x * n2x,
            (v2y * v2y) * (d2 * d2) <= n2y * n2y,
    ;
    assert(d2 * d2 >= 1) by (nonlinear_arith)
        requires
            d2 >= 1,
    ;
    assert((v1x * v1x + v1y * v1y + v2x * v2x + v2y * v2y) * (d2 * d2) <= (energy(b1) + energy(
        b2,
    )) * (d2 * d2)) by (nonlinear_arith)
        requires
            (v1x * v1x + v1y * v1y + v2x * v2x + v2y * v2y) * (d2 * d2) <= n1x * n1x + n1y * n1y
                + n2x * n2x + n2y * n2y,
            n1x * n1x + n1y * n1y + n2x * n2x + n2y * n2y <= d2 * d2 * (energy(b1) + energy(b2)),
    ;
    lemma_cancel_factor(
        v1x * v1x + v1y * v1y + v2x * v2x + v2y * v2y,
        energy(b1) + energy(b2),
        d2 * d2,
    );
}

/// From a quotient's square bound, scaled by the divisor squared.
proof fn lemma_component_energy(n: int, d2: int, v: int)
    requires
        d2 >= 1,
        v == tdiv(n, d2),
    ensures
        (v * v) * (d2 * d2) <= n * n,
{
    lemma_tdiv_sq(n, d2);
    assert((d2 * v) * (d2 * v) == (v * v) * (d2 * d2)) by (nonlinear_arith);
}

/// Cancel a positive common factor from an inequality.
proof fn lemma_cancel_factor(a: int, b: int, c: int)
    requires
        c >= 1,
        a * c <= b * c,
    ensures
        a <= b,
{
    assert(a <= b) by (nonlinear_arith)
        requires
            c >= 1,
            a * c <= b * c,
    ;
}

/// All the intermediate quantities of a collision stay inside `i64`,
/// so the clips in `collide_spec` change nothing.
proof fn lemma_collide_fits(b1: Ball, b2: Ball)
    requires
        colliding(b1, b2),
        energy(b1) + energy(b2) <= ENERGY_LIMIT,
        1 <= b1.radius + b2.radius <= 2 * RADIUS_LIMIT,
    ensures
        ({
            let dx = b2.pos.x - b1.pos.x;
            let dy = b2.pos.y - b1.pos.y;
            let d2 = dx * dx + dy * dy;
            let dist = sqrt_of(d2 as nat) as int;
            let sum = b1.radius + b2.radius;
            let oh = tdiv(sum - dist, 2);
            &&& -0x2_0000 <= dx <= 0x2_0000
            &&& -0x2_0000 <= dy <= 0x2_0000
            &&& 1 <= dist < sum
            &&& 0 <= oh <= RADIUS_LIMIT
            &&& -dist <= dx <= dist
            &&& -dist <= dy <= dist
            &&& 0 <= cdiv_away(dx * oh, dist) <= oh || 0 >= cdiv_away(dx * oh, dist) >= -oh
            &&& 0 <= cdiv_away(dy * oh, dist) <= oh || 0 >= cdiv_away(dy * oh, dist) >= -oh
        }),
{
    let dx = b2.pos.x - b1.pos.x;
    let dy = b2.pos.y - b1.pos.y;
    let d2 = dx * dx + dy * dy;
    let sum = b1.radius + b2.radius;
    let dist = sqrt_of(d2 as nat) as int;
    lemma_sqrt_of(d2 as nat);
    assert(d2 < sum * sum && sum <= 0x2_0000);
    assert(d2 < 0x4_0000_0000) by (nonlinear_arith)
        requires
            d2 < sum * sum,
            0 <= sum <= 0x2_0000,
    ;
    assert(dx * dx >= 0 && dy * dy >= 0) by (nonlinear_arith);
    assert(-0x2_0000 <= dx <= 0x2_0000 && -0x2_0000 <= dy <= 0x2_0000) by (nonlinear_arith)
        requires
            dx * dx < 0x4_0000_0000,
            dy * dy < 0x4_0000_0000,
    ;
    assert(dist >= 1) by {
        if dist == 0 {
            assert(((d2 as nat) as int) < (0 + 1) * (0 + 1));
        }
    }
    assert(dist < sum) by (nonlinear_arith)
        requires
            dist >= 0,
            sum >= 1,
            dist * dist <= d2,
            d2 < sum * sum,
    ;
    lemma_tdiv_bounds(sum - dist, 2);
    let oh = tdiv(sum - dist, 2);
    assert(-dist <= dx <= dist && -dist <= dy <= dist) by (nonlinear_arith)
        requires
            dx * dx <= d2,
            dy * dy <= d2,
            (d2 as int) < (dist + 1) * (dist + 1),
            dist >= 0,
    ;
    lemma_cdiv_away_bounds(dx * oh, dist);
    lemma_cdiv_away_bounds(dy * oh, dist);
    lemma_corr_within(dx, oh, dist);
    lemma_corr_within(dy, oh, dist);
}

/// The de-penetration push along one axis is at most half the overlap.
proof fn lemma_corr_within(dc: int, oh: int, dist: int)
    requires
        dist >= 1,
        oh >= 0,
        -dist <= dc <= dist,
    ensures
        0 <= cdiv_away(dc * oh, dist) <= oh || 0 >= cdiv_away(dc * oh, dist) >= -oh,
{
    lemma_cdiv_away_bounds(dc * oh, dist);
    if dc >= 0 {
        assert(0 <= dc * oh <= dist * oh) by (nonlinear_arith)
            requires
                0 <= dc <= dist,
                oh >= 0,
        ;
        assert((dc * oh + dist - 1) / dist <= oh) by (nonlinear_arith)
            requires
                0 <= dc * oh <= dist * oh,
                dist >= 1,
                oh >= 0,
        ;
    } else {
        assert(dc * oh <= 0 && -(dc * oh) <= dist * oh) by (nonlinear_arith)
            requires
                -dist <= dc < 0,
                oh >= 0,
        ;
        assert((-(dc * oh) + dist - 1) / dist <= oh) by (nonlinear_arith)
            requires
                0 <= -(dc * oh) <= dist * oh,
                dist >= 1,
                oh >= 0,
        ;
    }
}

/// Resolve a possible collision between two balls, exactly as
/// `collide_spec` describes.
pub fn handle_ball_to_ball_collision(b1: &mut Ball, b2: &mut Ball)
    requires
        pos_in_range(old(b1).pos),
        pos_in_range(old(b2).pos),
        1 <= old(b1).radius <= RADIUS_LIMIT,
        1 <= old(b2).radius <= RADIUS_LIMIT,
        energy(*old(b1)) + energy(*old(b2)) <= ENERGY_LIMIT,
    ensures
        (*final(b1), *final(b2)) == collide_spec(*old(b1), *old(b2)),
        energy(*final(b1)) + energy(*final(b2)) <= energy(*old(b1)) + energy(*old(b2)),
        final(b1).pos.x - old(b1).pos.x <= RADIUS_LIMIT,
        old(b1).pos.x - final(b1).pos.x <= RADIUS_LIMIT,
        final(b1).pos.y - old(b1).pos.y <= RADIUS_LIMIT,
        old(b1).pos.y - final(b1).pos.y <= RADIUS_LIMIT,
        final(b2).pos.x - old(b2).pos.x <= RADIUS_LIMIT,
        old(b2).pos.x - final(b2).pos.x <= RADIUS_LIMIT,
        final(b2).pos.y - old(b2).pos.y <= RADIUS_LIMIT,
        old(b2).pos.y - final(b2).pos.y <= RADIUS_LIMIT,
    {
    if b1.in_pocket || b2.in_pocket {
        return ;
    }
    proof {
        assert(energy(*b1) >= 0 && energy(*b2) >= 0) by (nonlinear_arith);
        lemma_component_bound(b1.vel);
        lemma_component_bound(b2.vel);
    }
    let dx = b2.pos.x - b1.pos.x;
    let dy = b2.pos.y - b1.pos.y;
    assert(0 <= dx * dx <= 0x100_0000_0000_0000 && 0 <= dy * dy <= 0x100_0000_0000_0000)
        by (nonlinear_arith)
        requires
            -0x1000_0000 <= dx <= 0x1000_0000,
            -0x1000_0000 <= dy <= 0x1000_0000,
    ;
    let d2 = dx * dx + dy * dy;
    let sum = b1.radius + b2.radius;
    assert(0 <= sum * sum <= 0x4_0000_0000) by (nonlinear_arith)
        requires
            0 <= sum <= 0x2_0000,
    ;
    if d2 < sum * sum && d2 >= 1 {
        proof {
            lemma_collide_fits(*b1, *b2);
            lemma_pair_energy(*old(b1), *old(b2));
        }
        let dist = isqrt64(d2);
        let oh = tdiv64(sum - dist, 2);
        assert(-0x4_0000_0000 <= dx * oh <= 0x4_0000_0000 && -0x4_0000_0000 <= dy * oh
            <= 0x4_0000_0000) by (nonlinear_arith)
            requires
                -0x2_0000 <= dx <= 0x2_0000,
                -0x2_0000 <= dy <= 0x2_0000,
                0 <= oh <= 0x1_0000,
        ;
        let cx = cdiv_away64(dx * oh, dist);
        let cy = cdiv_away64(dy * oh, dist);
        b1.pos.x = b1.pos.x - cx;
        b1.pos.y = b1.pos.y - cy;
        b2.pos.x = b2.pos.x + cx;
        b2.pos.y = b2.pos.y + cy;
        proof {
            lemma_mul_bounds_for_exec(b1.vel.x as int, b1.vel.y as int, dx as int, dy as int);
            lemma_mul_bounds_for_exec(b2.vel.x as int, b2.vel.y as int, dx as int, dy as int);
        }
        let dn1 = b1.vel.x * dx + b1.vel.y * dy;
        let dn2 = b2.vel.x * dx + b2.vel.y * dy;
        let dt1 = b1.vel.y * dx - b1.vel.x * dy;
        let dt2 = b2.vel.y * dx - b2.vel.x * dy;
        proof {
            lemma_scale_le(dn1 as int, BALL_ELASTICITY_NUM as int, BALL_ELASTICITY_DEN as int);
            lemma_scale_le(dn2 as int, BALL_ELASTICITY_NUM as int, BALL_ELASTICITY_DEN as int);
        }
        let e1 = tdiv64(dn1 * BALL_ELASTICITY_NUM, BALL_ELASTICITY_DEN);
        let e2 = tdiv64(dn2 * BALL_ELASTICITY_NUM, BALL_ELASTICITY_DEN);
        proof {
            lemma_mul_bounds_for_numer(dy as int, dt1 as int, dx as int, e2 as int);
            lemma_mul_bounds_for_numer(dy as int, dt2 as int, dx as int, e1 as int);
            lemma_mul_bounds_for_numer(dx as int, dt1 as int, dy as int, e2 as int);
            lemma_mul_bounds_for_numer(dx as int, dt2 as int, dy as int, e1 as int);
        }
        b1.vel.x = tdiv64(-dy * dt1 + dx * e2, d2);
        b1.vel.y = tdiv64(dx * dt1 + dy * e2, d2);
        b2.vel.x = tdiv64(-dy * dt2 + dx * e1, d2);
        b2.vel.y = tdiv64(dx * dt2 + dy * e1, d2);
    }
}

/// Ball-to-ball collision is symmetric: resolving the pair (a, b)
/// yields exactly the same post-state as resolving (b, a), so the
/// iteration order over pairs cannot affect a resolved collision.
pub proof fn lemma_collision_symmetric(b1: Ball, b2: Ball)
    ensures
        collide_spec(b2, b1) == (collide_spec(b1, b2).1, collide_spec(b1, b2).0),
{
    let dx = b2.pos.x - b1.pos.x;
    let dy = b2.pos.y - b1.pos.y;
    let sum = b1.radius + b2.radius;
    lemma_neg_mul(dx, dx);
    lemma_neg_mul(dy, dy);
    assert((-dx) * (-dx) == dx * dx && (-dy) * (-dy) == dy * dy) by (nonlinear_arith);
    assert(colliding(b2, b1) == colliding(b1, b2));
    if colliding(b1, b2) {
        let d2 = dx * dx + dy * dy;
        let dist = sqrt_of(d2 as nat) as int;
        assert(1 <= d2 < sum * sum);
        lemma_sqrt_of(d2 as nat);
        assert(dist >= 1) by {
            if dist == 0 {
                assert(((d2 as nat) as int) < (0 + 1) * (0 + 1));
            }
        }
        let oh = tdiv(sum - dist, 2);
        let dn1 = b1.vel.x * dx + b1.vel.y * dy;
        let dn2 = b2.vel.x * dx + b2.vel.y * dy;
        let dt1 = b1.vel.y * dx - b1.vel.x * dy;
        let dt2 = b2.vel.y * dx - b2.vel.x * dy;
        let e1 = tdiv(dn1 * BALL_ELASTICITY_NUM, BALL_ELASTICITY_DEN as int);
        let e2 = tdiv(dn2 * BALL_ELASTICITY_NUM, BALL_ELASTICITY_DEN as int);
        // Quantities seen from the swapped pair: the axis flips sign.
        assert(b1.pos.x - b2.pos.x == -dx && b1.pos.y - b2.pos.y == -dy);
        assert(b2.vel.x * (-dx) + b2.vel.y * (-dy) == -dn2 && b1.vel.x * (-dx) + b1.vel.y * (-dy)
            == -dn1) by (nonlinear_arith)
            requires
                dn1 == b1.vel.x * dx + b1.vel.y * dy,
                dn2 == b2.vel.x * dx + b2.vel.y * dy,
        ;
        assert(b2.vel.y * (-dx) - b2.vel.x * (-dy) == -dt2 && b1.vel.y * (-dx) - b1.vel.x * (-dy)
            == -dt1) by (nonlinear_arith)
            requires
                dt1 == b1.vel.y * dx - b1.vel.x * dy,
                dt2 == b2.vel.y * dx - b2.vel.x * dy,
        ;
        assert((-dn2) * BALL_ELASTICITY_NUM == -(dn2 * BALL_ELASTICITY_NUM) && (-dn1)
            * BALL_ELASTICITY_NUM == -(dn1 * BALL_ELASTICITY_NUM)) by (nonlinear_arith);
        lemma_tdiv_bounds(dn1 * BALL_ELASTICITY_NUM, BALL_ELASTICITY_DEN as int);
        lemma_tdiv_bounds(dn2 * BALL_ELASTICITY_NUM, BALL_ELASTICITY_DEN as int);
        lemma_cdiv_away_bounds(dx * oh, dist);
        lemma_cdiv_away_bounds(dy * oh, dist);
        assert((-dx) * oh == -(dx * oh) && (-dy) * oh == -(dy * oh)) by (nonlinear_arith);
        // The numerators of the velocity exchange match term by term.
        assert((-(-dy)) * (-dt2) == -(dy * dt2) && (-dx) * (-e1) == dx * e1 && (-dx) * (-dt2) == dx
            * dt2 && (-dy) * (-e1) == dy * e1) by (nonlinear_arith);
        assert((-(-dy)) * (-dt1) == -(dy * dt1) && (-dx) * (-e2) == dx * e2 && (-dx) * (-dt1) == dx
            * dt1 && (-dy) * (-e2) == dy * e2) by (nonlinear_arith);
        assert(-dy * dt2 == -(dy * dt2) && -dy * dt1 == -(dy * dt1)) by (nonlinear_arith);
        assert(collide_spec(b2, b1).0 == collide_spec(b1, b2).1);
        assert(collide_spec(b2, b1).1 == collide_spec(b1, b2).0);
    }
}

/// Resolving an overlapping pair pushes the centers back out: the new
/// center distance is at least the sum of the radii less one unit, so
/// no resolved pair stays overlapping.
pub proof fn lemma_collision_separates(b1: Ball, b2: Ball)
    requires
        colliding(b1, b2),
        energy(b1) + energy(b2) <= ENERGY_LIMIT,
        1 <= b1.radius <= RADIUS_LIMIT,
        1 <= b2.radius <= RADIUS_LIMIT,
        pos_in_range(b1.pos),
        pos_in_range(b2.pos),
    ensures
        ({
            let (a1, a2) = collide_spec(b1, b2);
            let ndx = a2.pos.x - a1.pos.x;
            let ndy = a2.pos.y - a1.pos.y;
            let sum = b1.radius + b2.radius;
            ndx * ndx + ndy * ndy >= (sum - 1) * (sum - 1)
        }),
{
    let dx = b2.pos.x - b1.pos.x;
    let dy = b2.pos.y - b1.pos.y;
    let d2 = dx * dx + dy * dy;
    let sum = b1.radius + b2.radius;
    let dist = sqrt_of(d2 as nat) as int;
    let oh = tdiv(sum - dist, 2);
    let cx = cdiv_away(dx * oh, dist);
    let cy = cdiv_away(dy * oh, dist);
    lemma_collide_fits(b1, b2);
    lemma_sqrt_of(d2 as nat);
    lemma_cdiv_away_bounds(dx * oh, dist);
    lemma_cdiv_away_bounds(dy * oh, dist);
    lemma_tdiv_bounds(sum - dist, 2);
    let ndx = dx + 2 * cx;
    let ndy = dy + 2 * cy;
    assert(collide_spec(b1, b2).1.pos.x - collide_spec(b1, b2).0.pos.x == ndx);
    assert(collide_spec(b1, b2).1.pos.y - collide_spec(b1, b2).0.pos.y == ndy);
    // Per axis, the pushed-apart offset keeps the full share of the
    // axis length: dist * |new| >= |old| * (dist + 2 * oh).
    lemma_axis_grows(dx, cx, oh, dist);
    lemma_axis_grows(dy, cy, oh, dist);
    let g = dist + 2 * oh;
    assert(g >= 0);
    // Sum the squared per-axis bounds.
    assert((dist * ndx) * (dist * ndx) >= (dx * g) * (dx * g)) by (nonlinear_arith)
        requires
            dx >= 0 ==> dist * ndx >= dx * g >= 0,
            dx < 0 ==> dist * ndx <= dx * g <= 0,
    ;
    assert((dist * ndy) * (dist * ndy) >= (dy * g) * (dy * g)) by (nonlinear_arith)
        requires
            dy >= 0 ==> dist * ndy >= dy * g >= 0,
            dy < 0 ==> dist * ndy <= dy * g <= 0,
    ;
    lemma_mul_sq(dist, ndx);
    lemma_mul_sq(dist, ndy);
    lemma_mul_sq(dx, g);
    lemma_mul_sq(dy, g);
    assert((dist * dist) * (ndx * ndx + ndy * ndy) >= (g * g) * (dx * dx + dy * dy))
        by (nonlinear_arith)
        requires
            (dist * dist) * (ndx * ndx) >= (g * g) * (dx * dx),
            (dist * dist) * (ndy * ndy) >= (g * g) * (dy * dy),
    ;
    assert((g * g) * d2 >= (g * g) * (dist * dist)) by (nonlinear_arith)
        requires
            d2 >= dist * dist,
            g * g >= 0,
    ;
    assert(g * g >= 0) by (nonlinear_arith);
    assert(ndx * ndx + ndy * ndy >= g * g) by (nonlinear_arith)
        requires
            (dist * dist) * (ndx * ndx + ndy * ndy) >= (g * g) * (dist * dist),
            dist >= 1,
    ;
    // The push restores all but one unit of the required separation.
    assert(2 * oh >= sum - dist - 1);
    assert(g >= sum - 1);
    assert(g * g >= (sum - 1) * (sum - 1)) by (nonlinear_arith)
        requires
            g >= sum - 1 >= 0,
    ;
}

/// One axis of the de-penetration: after both balls move by the
/// rounded-away push, the axis offset has grown proportionally.
proof fn lemma_axis_grows(dc: int, c: int, oh: int, dist: int)
    requires
        dist >= 1,
        oh >= 0,
        c == cdiv_away(dc * oh, dist),
    ensures
        dc >= 0 ==> dist * (dc + 2 * c) >= dc * (dist + 2 * oh) >= 0,
        dc < 0 ==> dist * (dc + 2 * c) <= dc * (dist + 2 * oh) <= 0,
{
    lemma_cdiv_away_bounds(dc * oh, dist);
    if dc >= 0 {
        assert(dc * oh >= 0) by (nonlinear_arith)
            requires
                dc >= 0,
                oh >= 0,
        ;
        assert(dist * c >= dc * oh);
        assert(dist * (dc + 2 * c) >= dc * (dist + 2 * oh) >= 0) by (nonlinear_arith)
            requires
                dist * c >= dc * oh,
                dc >= 0,
                oh >= 0,
                dist >= 1,
        ;
    } else {
        assert(dc * oh <= 0) by (nonlinear_arith)
            requires
                dc < 0,
                oh >= 0,
        ;
        if dc * oh == 0 {
            assert(c == 0);
            assert(dist * c == 0) by (nonlinear_arith)
                requires
                    c == 0,
            ;
        }
        assert(dist * c <= dc * oh);
        assert(dist * (dc + 2 * c) <= dc * (dist + 2 * oh) <= 0) by (nonlinear_arith)
            requires
                dist * c <= dc * oh,
                dc < 0,
                oh >= 0,
                dist >= 1,
        ;
    }
}

impl Game {
    /// Capture the ball at `ball_idx` if it sits inside any pocket's
    /// capture zone: mark it pocketed, stop it, and record the pot in
    /// the shot record and the acting player's score list.
    pub fn check_pocket_collision_for_ball(&mut self, ball_idx: usize)
        requires
            ball_idx < old(self).balls@.len(),
            old(self).balls@.len() == 16,
            pos_in_range(old(self).balls@[ball_idx as int].pos),
            old(self).pockets@.len() == 6,
            forall|j: int|
                0 <= j < 6 ==> wf_pocket(
                    #[trigger] old(self).pockets@[j],
                    old(self).table_width,
                    old(self).table_height,
                ),
            0 <= old(self).table_width <= DIM_LIMIT,
            0 <= old(self).table_height <= DIM_LIMIT,
        ensures
            ({
                let b = old(self).balls@[ball_idx as int];
                let hit = !b.in_pocket && exists|j: int|
                    0 <= j < 6 && captures(#[trigger] old(self).pockets@[j], b);
                if !hit {
                    *final(self) == *old(self)
                } else {
                    &&& final(self).balls@ == old(self).balls@.update(
                        ball_idx as int,
                        (Ball { vel: Vec2i { x: 0i64, y: 0i64 }, in_pocket: true, ..b }),
                    )
                    &&& final(self).potted_ball_numbers_this_turn@ == (if b.number != 0 {
                        old(self).potted_ball_numbers_this_turn@.push(b.number)
                    } else {
                        old(self).potted_ball_numbers_this_turn@
                    })
                    &&& final(self).player1_pocketed_balls@ == (if b.number != 0 && old(
                        self,
                    ).current_player == PlayerId::Player1 {
                        old(self).player1_pocketed_balls@.push(b.number)
                    } else {
                        old(self).player1_pocketed_balls@
                    })
                    &&& final(self).player2_pocketed_balls@ == (if b.number != 0 && old(
                        self,
                    ).current_player == PlayerId::Player2 {
                        old(self).player2_pocketed_balls@.push(b.number)
                    } else {
                        old(self).player2_pocketed_balls@
                    })
                    &&& *final(self) == (Game {
                        balls: final(self).balls,
                        potted_ball_numbers_this_turn: final(self).potted_ball_numbers_this_turn,
                        player1_pocketed_balls: final(self).player1_pocketed_balls,
                        player2_pocketed_balls: final(self).player2_pocketed_balls,
                        ..*old(self)
                    })
                }
            }),
    {
        if self.balls[ball_idx].in_pocket {
            return ;
        }
        let b = self.balls[ball_idx];
        let mut j: usize = 0;
        while j < 6
            invariant
                *self == *old(self),
                b == old(self).balls@[ball_idx as int],
                !b.in_pocket,
                ball_idx < 16,
                old(self).balls@.len() == 16,
                old(self).pockets@.len() == 6,
                0 <= j <= 6,
                pos_in_range(b.pos),
                forall|t: int|
                    0 <= t < 6 ==> wf_pocket(
                        #[trigger] old(self).pockets@[t],
                        old(self).table_width,
                        old(self).table_height,
                    ),
                0 <= old(self).table_width <= DIM_LIMIT,
                0 <= old(self).table_height <= DIM_LIMIT,
                forall|t: int| 0 <= t < j ==> !captures(#[trigger] old(self).pockets@[t], b),
            decreases 6 - j,
        {
            let p = *self.pockets.get(j).unwrap();
            let ddx = b.pos.x - p.pos.x;
            let ddy = b.pos.y - p.pos.y;
            proof {
                lemma_tdiv_bounds(p.radius * CAPTURE_NUM, CAPTURE_DEN as int);
            }
            let er = tdiv64(p.radius * CAPTURE_NUM, CAPTURE_DEN);
            assert(0 <= ddx * ddx <= 0x1000_0000_0000_0000 && 0 <= ddy * ddy
                <= 0x1000_0000_0000_0000 && 0 <= er * er <= 0x1000_0000_0000_0000)
                by (nonlinear_arith)
                requires
                    -0x2000_0000 <= ddx <= 0x2000_0000,
                    -0x2000_0000 <= ddy <= 0x2000_0000,
                    0 <= er <= 0x2000_0000,
            ;
            if ddx * ddx + ddy * ddy < er * er {
                assert(captures(old(self).pockets@[j as int], b));
                let mut nb = b;
                nb.vel.x = 0;
                nb.vel.y = 0;
                nb.in_pocket = true;
                self.balls.set(ball_idx, nb);
                let number = b.number;
                if number != 0 {
                    self.potted_ball_numbers_this_turn.push(number);
                    if matches!(self.current_player, PlayerId::Player1) {
                        self.player1_pocketed_balls.push(number);
                    } else {
                        self.player2_pocketed_balls.push(number);
                    }
                }
                return ;
            }
            j = j + 1;
        }
    }
}


/// One ball's free-motion step of a tick: integrate, then rebound.
pub open spec fn integrate_ball(b: Ball, width: i64, height: i64) -> Ball {
    wall_spec(advance_spec(b), width, height)
}

/// Whether some pocket of the table captures the ball where it stands.
pub open spec fn capture_hit(pockets: Seq<Pocket>, b: Ball) -> bool {
    !b.in_pocket && exists|j: int| 0 <= j < pockets.len() && captures(#[trigger] pockets[j], b)
}

/// A ball the instant a pocket swallows it.
pub open spec fn captured_ball(b: Ball) -> Ball {
    Ball { vel: Vec2i { x: 0i64, y: 0i64 }, in_pocket: true, ..b }
}

/// Whether a ball still counts as moving after its integration step.
pub open spec fn ball_still_moving(b: Ball) -> bool {
    b.vel.x * b.vel.x + b.vel.y * b.vel.y > MIN_SPEED_SQ
}

/// Everything the per-ball pass of one tick produces.
pub ghost struct TickPass {
    pub balls: Seq<Ball>,
    pub potted: Seq<u8>,
    pub tally1: Seq<u8>,
    pub tally2: Seq<u8>,
    pub still_moving: bool,
}

/// The per-ball pass over the first `n` balls, in index order: each
/// live ball is integrated, rebounds off the cushions, may be
/// captured by a pocket (recording the pot for the acting player),
/// and is tested against the rest threshold.
pub open spec fn integrate_pass(
    balls: Seq<Ball>,
    potted: Seq<u8>,
    tally1: Seq<u8>,
    tally2: Seq<u8>,
    cur: PlayerId,
    width: i64,
    height: i64,
    pockets: Seq<Pocket>,
    n: int,
) -> TickPass
    decreases n,
{
    if n <= 0 {
        TickPass { balls, potted, tally1, tally2, still_moving: false }
    } else {
        let p = integrate_pass(balls, potted, tally1, tally2, cur, width, height, pockets, n - 1);
        let i = n - 1;
        let b0 = p.balls[i];
        if b0.in_pocket {
            p
        } else {
            let b1 = integrate_ball(b0, width, height);
            let hit = capture_hit(pockets, b1);
            let b2 = if hit {
                captured_ball(b1)
            } else {
                b1
            };
            TickPass {
                balls: p.balls.update(i, b2),
                potted: if hit && b1.number != 0 {
                    p.potted.push(b1.number)
                } else {
                    p.potted
                },
                tally1: if hit && b1.number != 0 && cur == PlayerId::Player1 {
                    p.tally1.push(b1.number)
                } else {
                    p.tally1
                },
                tally2: if hit && b1.number != 0 && cur == PlayerId::Player2 {
                    p.tally2.push(b1.number)
                } else {
                    p.tally2
                },
                still_moving: p.still_moving || ball_still_moving(b2),
            }
        }
    }
}

/// The per-ball pass of a tick over the first `n` balls of a table.
pub open spec fn tick_integrate_upto(g: Game, n: int) -> TickPass {
    integrate_pass(
        g.balls@,
        g.potted_ball_numbers_this_turn@,
        g.player1_pocketed_balls@,
        g.player2_pocketed_balls@,
        g.current_player,
        g.table_width,
        g.table_height,
        g.pockets@,
        n,
    )
}

/// The complete per-ball pass of a tick.
pub open spec fn tick_integrate(g: Game) -> TickPass {
    tick_integrate_upto(g, 16)
}

/// One step of the pairwise pass: resolve the (i, j) pair in place;
/// pocketed balls take part in no collision.
pub open spec fn pair_step(balls: Seq<Ball>, i: int, j: int) -> Seq<Ball> {
    if balls[i].in_pocket || balls[j].in_pocket {
        balls
    } else {
        let r = collide_spec(balls[i], balls[j]);
        balls.update(i, r.0).update(j, r.1)
    }
}

/// The pairwise pass for a fixed first ball `i`, over the second
/// indices from `j` up.
pub open spec fn pair_pass_inner(balls: Seq<Ball>, i: int, j: int) -> Seq<Ball>
    decreases 16 - j,
{
    if j >= 16 {
        balls
    } else {
        pair_pass_inner(pair_step(balls, i, j), i, j + 1)
    }
}

/// The full pairwise pass over all unordered pairs, in loop order.
pub open spec fn pair_pass(balls: Seq<Ball>, i: int) -> Seq<Ball>
    decreases 16 - i,
{
    if i >= 16 {
        balls
    } else {
        pair_pass(pair_pass_inner(balls, i, i + 1), i + 1)
    }
}

/// Every ball stopped dead, as when a shot settles.
pub open spec fn stop_all(balls: Seq<Ball>) -> Seq<Ball> {
    Seq::new(balls.len(), |i: int| Ball { vel: Vec2i { x: 0i64, y: 0i64 }, ..balls[i] })
}

/// A pass whose first ball is pocketed resolves nothing.
proof fn lemma_pair_pass_inner_pocketed(balls: Seq<Ball>, i: int, j: int)
    requires
        0 <= i < balls.len(),
        balls[i].in_pocket,
    ensures
        pair_pass_inner(balls, i, j) == balls,
    decreases 16 - j,
{
    if j < 16 {
        assert(pair_step(balls, i, j) == balls);
        lemma_pair_pass_inner_pocketed(balls, i, j + 1);
    }
}

impl Game {
    /// One tick of the whole table while a shot resolves: integrate
    /// every live ball, rebound off cushions, capture pockets, then
    /// resolve every colliding pair. When no ball still moves faster
    /// than the rest threshold, the shot has settled: every residual
    /// crawl is cleared and the rule engine consumes the shot record.
    /// Outside the `Shooting` and `BallsMoving` phases this is a no-op,
    /// so a settled shot is never processed twice.
    pub fn update_physics_objects(&mut self)
        requires
            old(self).wf(),
        ensures
            final(self).wf(),
            old(self).game_state != GameState::Shooting && old(self).game_state
                != GameState::BallsMoving ==> *final(self) == *old(self),
            final(self).balls@.len() == 16,
            forall|k: int|
                0 <= k < 16 && (#[trigger] old(self).balls@[k]).in_pocket ==> final(self).balls@[k] == old(self).balls@[k],
            final(self).table_width == old(self).table_width,
            final(self).table_height == old(self).table_height,
            final(self).ball_radius == old(self).ball_radius,
            final(self).pocket_radius == old(self).pocket_radius,
            final(self).pockets@ == old(self).pockets@,
            final(self).cue_ball_idx == old(self).cue_ball_idx,
            old(self).game_state == GameState::Shooting || old(self).game_state
                == GameState::BallsMoving ==> (final(self).game_state == GameState::BallsMoving || (
            final(self).potted_ball_numbers_this_turn@ == Seq::<u8>::empty() && (final(self).game_state == GameState::Aiming || final(self).game_state
                == GameState::RepositionCueBall || final(self).game_state
                == GameState::GameOver))),
            total_energy(final(self).balls@) <= total_energy(old(self).balls@),
            ({
                let p = tick_integrate(*old(self));
                let resolved = pair_pass(p.balls, 0);
                (old(self).game_state == GameState::Shooting || old(self).game_state
                    == GameState::BallsMoving) ==> {
                    &&& p.still_moving ==> {
                        &&& final(self).balls@ == resolved
                        &&& final(self).potted_ball_numbers_this_turn@ == p.potted
                        &&& final(self).player1_pocketed_balls@ == p.tally1
                        &&& final(self).player2_pocketed_balls@ == p.tally2
                        &&& final(self).game_state == GameState::BallsMoving
                        &&& final(self).message == old(self).message
                        &&& final(self).current_player == old(self).current_player
                        &&& final(self).player1_group == old(self).player1_group
                        &&& final(self).player2_group == old(self).player2_group
                        &&& final(self).is_break_shot == old(self).is_break_shot
                    }
                    &&& !p.still_moving ==> {
                        let stopped = stop_all(resolved);
                        let o = turn_end_spec(
                            stopped,
                            p.potted,
                            stopped[old(self).cue_ball_idx as int].in_pocket,
                            old(self).current_player,
                            old(self).player1_group,
                            old(self).player2_group,
                        );
                        &&& final(self).balls@ == stopped
                        &&& final(self).potted_ball_numbers_this_turn@ == Seq::<u8>::empty()
                        &&& final(self).player1_pocketed_balls@ == p.tally1
                        &&& final(self).player2_pocketed_balls@ == p.tally2
                        &&& final(self).player1_group == o.group1
                        &&& final(self).player2_group == o.group2
                        &&& final(self).current_player == o.current
                        &&& final(self).game_state == o.phase
                        &&& final(self).message == o.message
                        &&& final(self).is_break_shot == (if p.potted.contains(8u8) {
                            old(self).is_break_shot
                        } else {
                            false
                        })
                    }
                }
            }),
    {
        if !(matches!(self.game_state, GameState::Shooting) || matches!(
            self.game_state,
            GameState::BallsMoving,
        )) {
            return ;
        }
        let w = self.table_width;
        let h = self.table_height;
        let mut still_moving = false;
        let mut i: usize = 0;
        while i < 16
            invariant
                old(self).wf(),
                0 <= i <= 16,
                w == old(self).table_width,
                h == old(self).table_height,
                self.balls@.len() == 16,
                self.table_width == old(self).table_width,
                self.table_height == old(self).table_height,
                self.ball_radius == old(self).ball_radius,
                self.pocket_radius == old(self).pocket_radius,
                self.pockets == old(self).pockets,
                self.cue_ball_idx == old(self).cue_ball_idx,
                self.game_state == old(self).game_state,
                self.message == old(self).message,
                self.current_player == old(self).current_player,
                self.player1_group == old(self).player1_group,
                self.player2_group == old(self).player2_group,
                self.is_break_shot == old(self).is_break_shot,
                total_energy(self.balls@) <= ENERGY_LIMIT,
                total_energy(self.balls@) <= total_energy(old(self).balls@),
                forall|k: int|
                    0 <= k < 16 ==> wf_ball(
                        #[trigger] self.balls@[k],
                        old(self).table_width,
                        old(self).table_height,
                    ),
                forall|k: int|
                    0 <= k < 16 ==> (#[trigger] self.balls@[k]).radius == old(self).balls@[k].radius
                        && self.balls@[k].number == old(self).balls@[k].number
                        && self.balls@[k].is_striped == old(self).balls@[k].is_striped,
                forall|k: int|
                    0 <= k < 16 && (#[trigger] old(self).balls@[k]).in_pocket ==> self.balls@[k]
                        == old(self).balls@[k],
                forall|k: int|
                    0 <= k < i && !(#[trigger] self.balls@[k]).in_pocket ==> self.balls@[k].radius
                        <= self.balls@[k].pos.x <= old(self).table_width - self.balls@[k].radius
                        && self.balls@[k].radius <= self.balls@[k].pos.y <= old(
                        self,
                    ).table_height - self.balls@[k].radius,
                forall|k: int| i <= k < 16 ==> self.balls@[k] == old(self).balls@[k],
                self.balls@ == tick_integrate_upto(*old(self), i as int).balls,
                self.potted_ball_numbers_this_turn@ == tick_integrate_upto(
                    *old(self),
                    i as int,
                ).potted,
                self.player1_pocketed_balls@ == tick_integrate_upto(*old(self), i as int).tally1,
                self.player2_pocketed_balls@ == tick_integrate_upto(*old(self), i as int).tally2,
                still_moving == tick_integrate_upto(*old(self), i as int).still_moving,
            decreases 16 - i,
        {
            if !self.balls[i].in_pocket {
                proof {
                    lemma_total_energy_bounds(self.balls@);
                }
                let ghost pre = self.balls@;
                let mut b = self.balls[i];
                proof {
                    lemma_component_bound(b.vel);
                }
                b.update_position();
                b.check_wall_collision(w, h);
                proof {
                    lemma_total_energy_update(pre, i as int, b);
                }
                self.balls.set(i, b);
                let ghost mid_seq = self.balls@;
                self.check_pocket_collision_for_ball(i);
                proof {
                    let hit = !mid_seq[i as int].in_pocket && exists|j: int|
                        0 <= j < 6 && captures(#[trigger] self.pockets@[j], mid_seq[i as int]);
                    if hit {
                        let nb = (Ball {
                            vel: Vec2i { x: 0i64, y: 0i64 },
                            in_pocket: true,
                            ..mid_seq[i as int]
                        });
                        lemma_total_energy_update(mid_seq, i as int, nb);
                        lemma_energy_nonneg(mid_seq[i as int]);
                        assert(energy(nb) == 0) by (nonlinear_arith)
                            requires
                                nb.vel.x == 0i64,
                                nb.vel.y == 0i64,
                        ;
                    }
                    lemma_total_energy_bounds(self.balls@);
                    lemma_component_bound(self.balls@[i as int].vel);
                }
                let v = self.balls[i].vel;
                assert(0 <= v.x * v.x <= 0x4_0000_0000 && 0 <= v.y * v.y <= 0x4_0000_0000)
                    by (nonlinear_arith)
                    requires
                        -0x2_0000 <= v.x <= 0x2_0000,
                        -0x2_0000 <= v.y <= 0x2_0000,
                ;
                if v.x * v.x + v.y * v.y > MIN_SPEED_SQ {
                    still_moving = true;
                }
                proof {
                    let gold = *old(self);
                    let p = tick_integrate_upto(gold, i as int);
                    let b0 = p.balls[i as int];
                    let b1s = integrate_ball(b0, gold.table_width, gold.table_height);
                    assert(b == b1s);
                    assert(gold.pockets@.len() == 6);
                    assert(mid_seq[i as int] == b1s);
                    let hit = capture_hit(gold.pockets@, b1s);
                    assert(hit == (!b1s.in_pocket && exists|j: int|
                        0 <= j < 6 && captures(#[trigger] gold.pockets@[j], b1s)));
                    if hit {
                        assert(self.balls@ =~= p.balls.update(i as int, captured_ball(b1s)));
                    } else {
                        assert(self.balls@ =~= p.balls.update(i as int, b1s));
                    }
                    let q = tick_integrate_upto(gold, i as int + 1);
                    assert(self.balls@ == q.balls);
                    assert(self.potted_ball_numbers_this_turn@ == q.potted);
                    assert(self.player1_pocketed_balls@ == q.tally1);
                    assert(self.player2_pocketed_balls@ == q.tally2);
                    assert(still_moving == q.still_moving);
                }
            } else {
                proof {
                    let gold = *old(self);
                    let p = tick_integrate_upto(gold, i as int);
                    let q = tick_integrate_upto(gold, i as int + 1);
                    assert(q == p);
                }
            }
            i = i + 1;
        }
        let ghost mid = *self;
        let mut a: usize = 0;
        while a < 16
            invariant
                old(self).wf(),
                mid.balls@.len() == 16,
                total_energy(mid.balls@) <= ENERGY_LIMIT,
                forall|k: int|
                    0 <= k < 16 ==> wf_ball(
                        #[trigger] mid.balls@[k],
                        old(self).table_width,
                        old(self).table_height,
                    ),
                forall|k: int|
                    0 <= k < 16 && !(#[trigger] mid.balls@[k]).in_pocket ==> mid.balls@[k].radius
                        <= mid.balls@[k].pos.x <= old(self).table_width - mid.balls@[k].radius
                        && mid.balls@[k].radius <= mid.balls@[k].pos.y <= old(self).table_height
                        - mid.balls@[k].radius,
                0 <= a <= 16,
                self.balls@.len() == 16,
                self.table_width == mid.table_width,
                self.table_height == mid.table_height,
                self.ball_radius == mid.ball_radius,
                self.pocket_radius == mid.pocket_radius,
                self.pockets == mid.pockets,
                self.cue_ball_idx == mid.cue_ball_idx,
                self.game_state == mid.game_state,
                self.message == mid.message,
                self.current_player == mid.current_player,
                self.player1_group == mid.player1_group,
                self.player2_group == mid.player2_group,
                self.is_break_shot == mid.is_break_shot,
                self.potted_ball_numbers_this_turn == mid.potted_ball_numbers_this_turn,
                self.player1_pocketed_balls == mid.player1_pocketed_balls,
                self.player2_pocketed_balls == mid.player2_pocketed_balls,
                mid.table_width == old(self).table_width,
                mid.table_height == old(self).table_height,
                mid.ball_radius == old(self).ball_radius,
                mid.pocket_radius == old(self).pocket_radius,
                mid.pockets == old(self).pockets,
                mid.cue_ball_idx == old(self).cue_ball_idx,
                mid.game_state == old(self).game_state,
                total_energy(self.balls@) <= total_energy(mid.balls@),
                total_energy(mid.balls@) <= total_energy(old(self).balls@),
                forall|k: int|
                    0 <= k < 16 ==> (#[trigger] self.balls@[k]).radius == mid.balls@[k].radius
                        && self.balls@[k].number == mid.balls@[k].number && self.balls@[k].is_striped
                        == mid.balls@[k].is_striped && self.balls@[k].in_pocket
                        == mid.balls@[k].in_pocket,
                forall|k: int|
                    0 <= k < 16 && (#[trigger] mid.balls@[k]).in_pocket ==> self.balls@[k]
                        == mid.balls@[k],
                forall|k: int|
                    0 <= k < 16 && (#[trigger] old(self).balls@[k]).in_pocket ==> mid.balls@[k]
                        == old(self).balls@[k],
                forall|k: int|
                    0 <= k < 16 ==> -(17 * a as int) * (RADIUS_LIMIT as int) <= (#[trigger] self.balls@[k]).pos.x
                        - mid.balls@[k].pos.x <= (17 * a as int) * (RADIUS_LIMIT as int) && -(17 * a as int)
                        * (RADIUS_LIMIT as int) <= self.balls@[k].pos.y - mid.balls@[k].pos.y <= (17
                        * a as int) * (RADIUS_LIMIT as int),
                pair_pass(self.balls@, a as int) == pair_pass(mid.balls@, 0),
                mid.balls@ == tick_integrate(*old(self)).balls,
                mid.potted_ball_numbers_this_turn@ == tick_integrate(*old(self)).potted,
                mid.player1_pocketed_balls@ == tick_integrate(*old(self)).tally1,
                mid.player2_pocketed_balls@ == tick_integrate(*old(self)).tally2,
                still_moving == tick_integrate(*old(self)).still_moving,
                mid.message == old(self).message,
                mid.current_player == old(self).current_player,
                mid.player1_group == old(self).player1_group,
                mid.player2_group == old(self).player2_group,
                mid.is_break_shot == old(self).is_break_shot,
            decreases 16 - a,
        {
            if !self.balls[a].in_pocket {
                let mut bj: usize = a + 1;
                while bj < 16
                    invariant
                        old(self).wf(),
                        mid.balls@.len() == 16,
                        total_energy(mid.balls@) <= ENERGY_LIMIT,
                        forall|k: int|
                            0 <= k < 16 ==> wf_ball(
                                #[trigger] mid.balls@[k],
                                old(self).table_width,
                                old(self).table_height,
                            ),
                        forall|k: int|
                            0 <= k < 16 && !(#[trigger] mid.balls@[k]).in_pocket
                                ==> mid.balls@[k].radius <= mid.balls@[k].pos.x <= old(
                                self,
                            ).table_width - mid.balls@[k].radius && mid.balls@[k].radius
                                <= mid.balls@[k].pos.y <= old(self).table_height
                                - mid.balls@[k].radius,
                        0 <= a < 16,
                        a + 1 <= bj <= 16,
                        self.balls@.len() == 16,
                        total_energy(self.balls@) <= total_energy(mid.balls@),
                        total_energy(mid.balls@) <= total_energy(old(self).balls@),
                        forall|k: int|
                            0 <= k < 16 ==> (#[trigger] self.balls@[k]).radius
                                == mid.balls@[k].radius && self.balls@[k].number
                                == mid.balls@[k].number && self.balls@[k].is_striped
                                == mid.balls@[k].is_striped && self.balls@[k].in_pocket
                                == mid.balls@[k].in_pocket,
                        forall|k: int|
                            0 <= k < 16 && (#[trigger] mid.balls@[k]).in_pocket ==> self.balls@[k]
                                == mid.balls@[k],
                        forall|k: int|
                            0 <= k < 16 ==> -(17 * a as int + bj as int) * (RADIUS_LIMIT as int) <= (
                            #[trigger] self.balls@[k]).pos.x - mid.balls@[k].pos.x <= (17
                                * a as int + bj as int) * RADIUS_LIMIT && -(17 * a as int
                                + bj as int) * RADIUS_LIMIT <= self.balls@[k].pos.y
                                - mid.balls@[k].pos.y <= (17 * a as int + bj as int)
                                * RADIUS_LIMIT,
                        self.table_width == mid.table_width,
                        self.table_height == mid.table_height,
                        self.ball_radius == mid.ball_radius,
                        self.pocket_radius == mid.pocket_radius,
                        self.pockets == mid.pockets,
                        self.cue_ball_idx == mid.cue_ball_idx,
                        self.game_state == mid.game_state,
                        self.message == mid.message,
                        self.current_player == mid.current_player,
                        self.player1_group == mid.player1_group,
                        self.player2_group == mid.player2_group,
                        self.is_break_shot == mid.is_break_shot,
                        self.potted_ball_numbers_this_turn == mid.potted_ball_numbers_this_turn,
                        self.player1_pocketed_balls == mid.player1_pocketed_balls,
                        self.player2_pocketed_balls == mid.player2_pocketed_balls,
                        pair_pass(pair_pass_inner(self.balls@, a as int, bj as int), a as int + 1)
                            == pair_pass(mid.balls@, 0),
                        mid.balls@ == tick_integrate(*old(self)).balls,
                        mid.potted_ball_numbers_this_turn@ == tick_integrate(*old(self)).potted,
                        mid.player1_pocketed_balls@ == tick_integrate(*old(self)).tally1,
                        mid.player2_pocketed_balls@ == tick_integrate(*old(self)).tally2,
                        still_moving == tick_integrate(*old(self)).still_moving,
                        mid.message == old(self).message,
                        mid.current_player == old(self).current_player,
                        mid.player1_group == old(self).player1_group,
                        mid.player2_group == old(self).player2_group,
                        mid.is_break_shot == old(self).is_break_shot,
                        mid.game_state == old(self).game_state,
                        self.message == mid.message,
                        self.current_player == mid.current_player,
                        self.cue_ball_idx == mid.cue_ball_idx,
                    decreases 16 - bj,
                {
                    if !self.balls[bj].in_pocket {
                        proof {
                            lemma_total_energy_pair(self.balls@, a as int, bj as int);
                            lemma_energy_nonneg(self.balls@[a as int]);
                            lemma_energy_nonneg(self.balls@[bj as int]);
                        }
                        let ghost pre = self.balls@;
                        let mut b1 = self.balls[a];
                        let mut b2 = self.balls[bj];
                        handle_ball_to_ball_collision(&mut b1, &mut b2);
                        self.balls.set(a, b1);
                        self.balls.set(bj, b2);
                        proof {
                            lemma_total_energy_update(pre, a as int, b1);
                            lemma_total_energy_update(pre.update(a as int, b1), bj as int, b2);
                            assert(pre.update(a as int, b1)[bj as int] == pre[bj as int]);
                            assert(self.balls@ == pair_step(pre, a as int, bj as int));
                        }
                    } else {
                        proof {
                            assert(pair_step(self.balls@, a as int, bj as int) == self.balls@);
                        }
                    }
                    bj = bj + 1;
                }
            } else {
                proof {
                    lemma_pair_pass_inner_pocketed(self.balls@, a as int, a as int + 1);
                }
            }
            proof {
                assert(pair_pass(self.balls@, a as int + 1) == pair_pass(mid.balls@, 0));
            }
            a = a + 1;
        }
        proof {
            assert(pair_pass(self.balls@, 16) == self.balls@);
            assert(self.balls@ == pair_pass(tick_integrate(*old(self)).balls, 0));
        }
        if still_moving {
            if matches!(self.game_state, GameState::Shooting) {
                self.game_state = GameState::BallsMoving;
            }
            return ;
        }
        // The shot has settled: clear every residual crawl so the table
        // is fully at rest, then let the rule engine rule on the shot.
        let ghost settled = *self;
        let mut t: usize = 0;
        while t < 16
            invariant
                0 <= t <= 16,
                old(self).wf(),
                settled.balls@.len() == 16,
                settled.table_width == old(self).table_width,
                settled.table_height == old(self).table_height,
                settled.ball_radius == old(self).ball_radius,
                settled.pocket_radius == old(self).pocket_radius,
                settled.pockets == old(self).pockets,
                settled.cue_ball_idx == old(self).cue_ball_idx,
                settled.game_state == old(self).game_state,
                forall|k: int|
                    0 <= k < 16 ==> wf_ball(
                        #[trigger] settled.balls@[k],
                        old(self).table_width,
                        old(self).table_height,
                    ),
                forall|k: int|
                    0 <= k < 16 ==> (#[trigger] settled.balls@[k]).number == old(
                        self,
                    ).balls@[k].number,
                forall|k: int|
                    0 <= k < 16 && (#[trigger] old(self).balls@[k]).in_pocket ==> settled.balls@[k]
                        == old(self).balls@[k],
                self.balls@.len() == 16,
                forall|k: int| t <= k < 16 ==> self.balls@[k] == settled.balls@[k],
                forall|k: int|
                    0 <= k < t ==> self.balls@[k] == (Ball {
                        vel: Vec2i { x: 0i64, y: 0i64 },
                        ..settled.balls@[k]
                    }),
                self.table_width == settled.table_width,
                self.table_height == settled.table_height,
                self.ball_radius == settled.ball_radius,
                self.pocket_radius == settled.pocket_radius,
                self.pockets == settled.pockets,
                self.cue_ball_idx == settled.cue_ball_idx,
                self.game_state == settled.game_state,
                self.message == settled.message,
                self.current_player == settled.current_player,
                self.player1_group == settled.player1_group,
                self.player2_group == settled.player2_group,
                self.is_break_shot == settled.is_break_shot,
                self.potted_ball_numbers_this_turn == settled.potted_ball_numbers_this_turn,
                self.player1_pocketed_balls == settled.player1_pocketed_balls,
                self.player2_pocketed_balls == settled.player2_pocketed_balls,
                settled.balls@ == pair_pass(tick_integrate(*old(self)).balls, 0),
                settled.potted_ball_numbers_this_turn@ == tick_integrate(*old(self)).potted,
                settled.player1_pocketed_balls@ == tick_integrate(*old(self)).tally1,
                settled.player2_pocketed_balls@ == tick_integrate(*old(self)).tally2,
                !tick_integrate(*old(self)).still_moving,
                settled.message == old(self).message,
                settled.current_player == old(self).current_player,
                settled.player1_group == old(self).player1_group,
                settled.player2_group == old(self).player2_group,
                settled.is_break_shot == old(self).is_break_shot,
                old(self).game_state == GameState::Shooting || old(self).game_state
                    == GameState::BallsMoving,
            decreases 16 - t,
        {
            let mut b = self.balls[t];
            b.vel.x = 0;
            b.vel.y = 0;
            self.balls.set(t, b);
            t = t + 1;
        }
        proof {
            lemma_total_energy_zero(self.balls@);
            lemma_total_energy_bounds(old(self).balls@);
            assert(self.balls@ =~= stop_all(settled.balls@));
        }
        self.handle_player_turn_end();
    }

    /// Advance one frame of game logic.
    pub fn update(&mut self)
        requires
            old(self).wf(),
        ensures
            final(self).wf(),
            old(self).game_state != GameState::Shooting && old(self).game_state
                != GameState::BallsMoving ==> *final(self) == *old(self),
            final(self).balls@.len() == 16,
            forall|k: int|
                0 <= k < 16 && (#[trigger] old(self).balls@[k]).in_pocket ==> final(self).balls@[k] == old(self).balls@[k],
            final(self).pockets@ == old(self).pockets@,
            final(self).cue_ball_idx == old(self).cue_ball_idx,
            old(self).game_state == GameState::Shooting || old(self).game_state
                == GameState::BallsMoving ==> (final(self).game_state == GameState::BallsMoving || (
            final(self).potted_ball_numbers_this_turn@ == Seq::<u8>::empty() && (final(self).game_state == GameState::Aiming || final(self).game_state
                == GameState::RepositionCueBall || final(self).game_state
                == GameState::GameOver))),
            total_energy(final(self).balls@) <= total_energy(old(self).balls@),
            final(self).table_width == old(self).table_width,
            final(self).table_height == old(self).table_height,
            final(self).ball_radius == old(self).ball_radius,
            final(self).pocket_radius == old(self).pocket_radius,
            ({
                let p = tick_integrate(*old(self));
                let resolved = pair_pass(p.balls, 0);
                (old(self).game_state == GameState::Shooting || old(self).game_state
                    == GameState::BallsMoving) ==> {
                    &&& p.still_moving ==> {
                        &&& final(self).balls@ == resolved
                        &&& final(self).potted_ball_numbers_this_turn@ == p.potted
                        &&& final(self).player1_pocketed_balls@ == p.tally1
                        &&& final(self).player2_pocketed_balls@ == p.tally2
                        &&& final(self).game_state == GameState::BallsMoving
                        &&& final(self).message == old(self).message
                        &&& final(self).current_player == old(self).current_player
                        &&& final(self).player1_group == old(self).player1_group
                        &&& final(self).player2_group == old(self).player2_group
                        &&& final(self).is_break_shot == old(self).is_break_shot
                    }
                    &&& !p.still_moving ==> {
                        let stopped = stop_all(resolved);
                        let o = turn_end_spec(
                            stopped,
                            p.potted,
                            stopped[old(self).cue_ball_idx as int].in_pocket,
                            old(self).current_player,
                            old(self).player1_group,
                            old(self).player2_group,
                        );
                        &&& final(self).balls@ == stopped
                        &&& final(self).potted_ball_numbers_this_turn@ == Seq::<u8>::empty()
                        &&& final(self).player1_pocketed_balls@ == p.tally1
                        &&& final(self).player2_pocketed_balls@ == p.tally2
                        &&& final(self).player1_group == o.group1
                        &&& final(self).player2_group == o.group2
                        &&& final(self).current_player == o.current
                        &&& final(self).game_state == o.phase
                        &&& final(self).message == o.message
                        &&& final(self).is_break_shot == (if p.potted.contains(8u8) {
                            old(self).is_break_shot
                        } else {
                            false
                        })
                    }
                }
            }),
    {
        if !matches!(self.game_state, GameState::Initializing) {
            self.update_physics_objects();
        }
    }
}

/// Products of a bounded velocity and a bounded axis fit easily.
proof fn lemma_mul_bounds_for_exec(vx: int, vy: int, dx: int, dy: int)
    requires
        -0x2_0000 <= vx <= 0x2_0000,
        -0x2_0000 <= vy <= 0x2_0000,
        -0x2_0000 <= dx <= 0x2_0000,
        -0x2_0000 <= dy <= 0x2_0000,
    ensures
        -0x4_0000_0000 <= vx * dx <= 0x4_0000_0000,
        -0x4_0000_0000 <= vy * dy <= 0x4_0000_0000,
        -0x4_0000_0000 <= vy * dx <= 0x4_0000_0000,
        -0x4_0000_0000 <= vx * dy <= 0x4_0000_0000,
{
    assert(-0x4_0000_0000 <= vx * dx <= 0x4_0000_0000 && -0x4_0000_0000 <= vy * dy
        <= 0x4_0000_0000 && -0x4_0000_0000 <= vy * dx <= 0x4_0000_0000 && -0x4_0000_0000 <= vx * dy
        <= 0x4_0000_0000) by (nonlinear_arith)
        requires
            -0x2_0000 <= vx <= 0x2_0000,
            -0x2_0000 <= vy <= 0x2_0000,
            -0x2_0000 <= dx <= 0x2_0000,
            -0x2_0000 <= dy <= 0x2_0000,
    ;
}

/// The numerator terms of the velocity exchange fit in `i64`.
proof fn lemma_mul_bounds_for_numer(d1: int, t: int, d2c: int, e: int)
    requires
        -0x2_0000 <= d1 <= 0x2_0000,
        -0x2_0000 <= d2c <= 0x2_0000,
        -0x8_0000_0000 <= t <= 0x8_0000_0000,
        -0x8_0000_0000 <= e <= 0x8_0000_0000,
    ensures
        -0x10_0000_0000_0000 <= d1 * t <= 0x10_0000_0000_0000,
        -0x10_0000_0000_0000 <= (-d1) * t <= 0x10_0000_0000_0000,
        -0x10_0000_0000_0000 <= d2c * e <= 0x10_0000_0000_0000,
{
    assert(-0x10_0000_0000_0000 <= d1 * t <= 0x10_0000_0000_0000 && -0x10_0000_0000_0000 <= (-d1)
        * t <= 0x10_0000_0000_0000 && -0x10_0000_0000_0000 <= d2c * e <= 0x10_0000_0000_0000)
        by (nonlinear_arith)
        requires
            -0x2_0000 <= d1 <= 0x2_0000,
            -0x2_0000 <= d2c <= 0x2_0000,
            -0x8_0000_0000 <= t <= 0x8_0000_0000,
            -0x8_0000_0000 <= e <= 0x8_0000_0000,
    ;
}

} // verus!
