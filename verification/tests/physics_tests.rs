//! Physics scenarios: friction and the rest floor, cushion rebound,
//! collision symmetry and de-penetration, pocket capture.
use potshot::ball::Ball;
use potshot::game::Game;
use potshot::geom::Vec2i;
use potshot::physics::handle_ball_to_ball_collision;
use potshot::types::GameState;

const W: i64 = 2_000_000;
const H: i64 = 1_000_000;
const R: i64 = 17_000;

fn ball_at(x: i64, y: i64, vx: i64, vy: i64) -> Ball {
    let mut b = Ball::new(x, y, 1, false, 16_000);
    b.vel = Vec2i { x: vx, y: vy };
    b
}

#[test]
fn resting_ball_stays_put() {
    let mut b = ball_at(100_000, 200_000, 0, 0);
    b.update_position();
    assert_eq!(b.pos, Vec2i { x: 100_000, y: 200_000 });
    assert_eq!(b.vel, Vec2i { x: 0, y: 0 });
}

#[test]
fn friction_decays_velocity_exactly() {
    let mut b = ball_at(100_000, 100_000, 1000, 0);
    b.update_position();
    assert_eq!(b.pos, Vec2i { x: 101_000, y: 100_000 });
    assert_eq!(b.vel, Vec2i { x: 980, y: 0 });
}

#[test]
fn slow_crawl_is_clamped_to_rest() {
    let mut b = ball_at(100_000, 100_000, 51, 0);
    b.update_position();
    // 51 * 98 / 100 = 49, and 49^2 < 2500, so the ball stops.
    assert_eq!(b.pos, Vec2i { x: 100_051, y: 100_000 });
    assert_eq!(b.vel, Vec2i { x: 0, y: 0 });
}

#[test]
fn pocketed_ball_ignores_integration() {
    let mut b = ball_at(100_000, 100_000, 5000, 0);
    b.in_pocket = true;
    b.vel = Vec2i { x: 0, y: 0 };
    b.update_position();
    assert_eq!(b.pos, Vec2i { x: 100_000, y: 100_000 });
}

#[test]
fn cushion_rebound_clamps_and_reflects() {
    let mut b = ball_at(W - 10_000, 500_000, 500, 0);
    b.check_wall_collision(W, H);
    assert_eq!(b.pos.x, W - 16_000);
    assert_eq!(b.vel.x, -400);
    assert_eq!(b.vel.y, 0);

    let mut c = ball_at(5_000, 5_000, -300, -250);
    c.check_wall_collision(W, H);
    // A corner impact reflects both axes.
    assert_eq!(c.pos, Vec2i { x: 16_000, y: 16_000 });
    assert_eq!(c.vel, Vec2i { x: 240, y: 200 });
}

#[test]
fn head_on_collision_swaps_normal_speed() {
    let mut b1 = ball_at(100_000, 100_000, 1000, 0);
    let mut b2 = ball_at(130_000, 100_000, 0, 0);
    handle_ball_to_ball_collision(&mut b1, &mut b2);
    // Overlap of 2000 units split evenly, pushed along the x axis.
    assert_eq!(b1.pos, Vec2i { x: 99_000, y: 100_000 });
    assert_eq!(b2.pos, Vec2i { x: 131_000, y: 100_000 });
    // The struck ball takes 19/20 of the mover's speed; the mover stops.
    assert_eq!(b1.vel, Vec2i { x: 0, y: 0 });
    assert_eq!(b2.vel, Vec2i { x: 950, y: 0 });
}

#[test]
fn collision_is_symmetric_in_argument_order() {
    let mk = || {
        (
            ball_at(100_000, 100_000, 1200, -340),
            ball_at(128_000, 111_000, -770, 413),
        )
    };
    let (mut a1, mut a2) = mk();
    handle_ball_to_ball_collision(&mut a1, &mut a2);
    let (b1, b2) = mk();
    let (mut s2, mut s1) = (b2, b1);
    handle_ball_to_ball_collision(&mut s2, &mut s1);
    assert_eq!(a1, s1);
    assert_eq!(a2, s2);
}

#[test]
fn resolved_pair_is_no_longer_overlapping() {
    let mut b1 = ball_at(100_000, 100_000, 900, 100);
    let mut b2 = ball_at(120_000, 112_000, -400, 0);
    let sum = b1.radius + b2.radius;
    let d0 = {
        let dx = b2.pos.x - b1.pos.x;
        let dy = b2.pos.y - b1.pos.y;
        dx * dx + dy * dy
    };
    assert!(d0 < sum * sum, "the pair starts overlapping");
    handle_ball_to_ball_collision(&mut b1, &mut b2);
    let dx = b2.pos.x - b1.pos.x;
    let dy = b2.pos.y - b1.pos.y;
    assert!(dx * dx + dy * dy >= (sum - 1) * (sum - 1));
}

#[test]
fn separated_pair_is_untouched() {
    let mut b1 = ball_at(100_000, 100_000, 900, 100);
    let mut b2 = ball_at(300_000, 112_000, -400, 0);
    let (c1, c2) = (b1, b2);
    handle_ball_to_ball_collision(&mut b1, &mut b2);
    assert_eq!(b1, c1);
    assert_eq!(b2, c2);
}

#[test]
fn ball_in_capture_zone_is_pocketed_and_recorded() {
    let mut g = Game::new(W, H, R);
    // The first pocket sits at (off, off) with off = pr / 10.
    let p = g.pockets[0];
    let idx = 1;
    let mut b = g.balls[idx];
    b.pos = Vec2i { x: p.pos.x + 60, y: p.pos.y + 60 };
    g.balls[idx] = b;
    let number = g.balls[idx].number;
    g.check_pocket_collision_for_ball(idx);
    assert!(g.balls[idx].in_pocket);
    assert_eq!(g.balls[idx].vel, Vec2i { x: 0, y: 0 });
    assert_eq!(g.potted_ball_numbers_this_turn, vec![number]);
    assert_eq!(g.player1_pocketed_balls, vec![number]);
    // A pocketed ball is never re-evaluated, let alone un-pocketed.
    g.check_pocket_collision_for_ball(idx);
    assert!(g.balls[idx].in_pocket);
    assert_eq!(g.potted_ball_numbers_this_turn, vec![number]);
}

#[test]
fn ball_outside_capture_zone_stays_up() {
    let mut g = Game::new(W, H, R);
    let before = g.balls[2];
    g.check_pocket_collision_for_ball(2);
    assert_eq!(g.balls[2], before);
    assert!(g.potted_ball_numbers_this_turn.is_empty());
}

#[test]
fn pocketed_balls_stay_pocketed_across_ticks() {
    let mut g = Game::new(W, H, R);
    let p = g.pockets[0];
    let mut b = g.balls[3];
    b.pos = Vec2i { x: p.pos.x + 50, y: p.pos.y + 50 };
    g.balls[3] = b;
    g.check_pocket_collision_for_ball(3);
    assert!(g.balls[3].in_pocket);
    g.game_state = GameState::BallsMoving;
    g.update();
    assert!(g.balls[3].in_pocket);
    g.update();
    assert!(g.balls[3].in_pocket);
}
