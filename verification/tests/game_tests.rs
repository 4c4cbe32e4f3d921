//! Whole-match scenarios: the fresh rack, reset idempotence, shot
//! acceptance, cue-ball repositioning, and a full shot resolving to
//! a settled state.
use potshot::game::Game;
use potshot::geom::Vec2i;
use potshot::types::{GameState, Message, PlayerGroup, PlayerId};

const W: i64 = 2_000_000;
const H: i64 = 1_000_000;
const R: i64 = 17_000;

#[test]
fn fresh_rack_shape() {
    let g = Game::new(W, H, R);
    assert_eq!(g.balls.len(), 16);
    assert_eq!(g.pockets.len(), 6);
    assert_eq!(g.cue_ball_idx, 0);
    assert_eq!(g.balls[0].number, 0);
    assert_eq!(g.balls[0].pos, Vec2i { x: W / 4, y: H / 2 });
    assert_eq!(g.game_state, GameState::Aiming);
    assert_eq!(g.message, Message::MatchStart(PlayerId::Player1));
    assert_eq!(g.current_player, PlayerId::Player1);
    assert_eq!(g.player1_group, PlayerGroup::Undecided);
    assert_eq!(g.player2_group, PlayerGroup::Undecided);
    assert!(g.is_break_shot);
    // One ball of each number, the 8 at the heart of the triangle.
    let mut seen = [false; 16];
    for b in g.balls.iter() {
        assert!(!seen[b.number as usize]);
        seen[b.number as usize] = true;
        assert!(!b.in_pocket);
        assert_eq!(b.vel, Vec2i { x: 0, y: 0 });
        assert_eq!(b.radius, R);
    }
    assert!(seen.iter().all(|s| *s));
    assert_eq!(g.balls[5].number, 8);
}

#[test]
fn reset_match_twice_gives_identical_fresh_rack() {
    let mut g = Game::new(W, H, R);
    assert!(g.begin_shot(80_000, 1_000));
    for _ in 0..10_000 {
        if g.game_state != GameState::Shooting && g.game_state != GameState::BallsMoving {
            break;
        }
        g.update();
    }
    g.reset_match();
    let balls1 = g.balls.clone();
    let pockets1 = g.pockets.clone();
    let state1 = (
        g.game_state,
        g.message,
        g.current_player,
        g.player1_group,
        g.player2_group,
        g.is_break_shot,
    );
    let tallies1 = (
        g.potted_ball_numbers_this_turn.clone(),
        g.player1_pocketed_balls.clone(),
        g.player2_pocketed_balls.clone(),
    );
    g.reset_match();
    assert_eq!(g.balls, balls1);
    assert_eq!(g.pockets, pockets1);
    assert_eq!(
        (
            g.game_state,
            g.message,
            g.current_player,
            g.player1_group,
            g.player2_group,
            g.is_break_shot,
        ),
        state1
    );
    assert_eq!(
        (
            g.potted_ball_numbers_this_turn.clone(),
            g.player1_pocketed_balls.clone(),
            g.player2_pocketed_balls.clone(),
        ),
        tallies1
    );
    assert!(tallies1.0.is_empty() && tallies1.1.is_empty() && tallies1.2.is_empty());
}

#[test]
fn begin_shot_needs_aiming_phase_and_power() {
    let mut g = Game::new(W, H, R);
    assert!(!g.begin_shot(100, 0));
    assert_eq!(g.message, Message::AimLowPower(PlayerId::Player1));
    assert_eq!(g.game_state, GameState::Aiming);

    assert!(g.begin_shot(100_000, 0));
    assert_eq!(g.game_state, GameState::Shooting);
    assert_eq!(g.message, Message::BallsInMotion);
    // The cue ball takes the strike scaled by the ball elasticity.
    assert_eq!(g.balls[0].vel, Vec2i { x: 95_000, y: 0 });

    // Not aiming any more: a second strike is refused untouched.
    assert!(!g.begin_shot(100_000, 0));
    assert_eq!(g.game_state, GameState::Shooting);
}

#[test]
fn shot_resolves_to_a_settled_phase() {
    let mut g = Game::new(W, H, R);
    assert!(g.begin_shot(120_000, 500));
    let mut ticks = 0;
    while g.game_state == GameState::Shooting || g.game_state == GameState::BallsMoving {
        g.update();
        ticks += 1;
        assert!(ticks < 20_000, "shot never settled");
    }
    assert!(
        g.game_state == GameState::Aiming
            || g.game_state == GameState::RepositionCueBall
            || g.game_state == GameState::GameOver
    );
    assert!(g.potted_ball_numbers_this_turn.is_empty());
    // Every surviving ball rests inside the cushions.
    for b in g.balls.iter() {
        if !b.in_pocket {
            assert!(b.pos.x >= b.radius && b.pos.x <= W - b.radius);
            assert!(b.pos.y >= b.radius && b.pos.y <= H - b.radius);
            assert_eq!(b.vel, Vec2i { x: 0, y: 0 });
        }
    }
    // A weak shot far from everything decays to rest and passes the
    // turn without potting anything.
    if g.game_state == GameState::Aiming && !g.balls[0].in_pocket {
        let cur = g.current_player;
        let tally1 = g.player1_pocketed_balls.len();
        let tally2 = g.player2_pocketed_balls.len();
        assert!(g.begin_shot(0, 800));
        let mut ticks2 = 0;
        while g.game_state == GameState::Shooting || g.game_state == GameState::BallsMoving {
            g.update();
            ticks2 += 1;
            assert!(ticks2 < 20_000, "weak shot never settled");
        }
        assert_eq!(g.current_player, cur.next());
        assert_eq!(g.player1_pocketed_balls.len(), tally1);
        assert_eq!(g.player2_pocketed_balls.len(), tally2);
    }
}

#[test]
fn reposition_only_in_reposition_phase() {
    let mut g = Game::new(W, H, R);
    let msg = g.message;
    assert!(!g.reposition_cue_ball(300_000, 500_000));
    assert_eq!(g.message, msg);
    assert_eq!(g.game_state, GameState::Aiming);
}

#[test]
fn reposition_validates_area_and_overlap() {
    let mut g = Game::new(W, H, R);
    g.game_state = GameState::RepositionCueBall;
    let mut cue = g.balls[0];
    cue.in_pocket = true;
    g.balls[0] = cue;

    // Outside the baulk area: the leftmost quarter of the table.
    assert!(!g.reposition_cue_ball(600_000, 500_000));
    assert_eq!(g.message, Message::RepositionOutsideArea);
    assert_eq!(g.game_state, GameState::RepositionCueBall);

    // Overlapping another ball is refused; park ball 1 in the area.
    let mut blocker = g.balls[1];
    blocker.pos = Vec2i { x: 300_000, y: 500_000 };
    g.balls[1] = blocker;
    assert!(!g.reposition_cue_ball(300_000 + R, 500_000));
    assert_eq!(g.message, Message::InvalidReposition);
    assert_eq!(g.game_state, GameState::RepositionCueBall);

    // A clear spot brings the cue ball back and play resumes.
    assert!(g.reposition_cue_ball(100_000, 300_000));
    assert_eq!(g.game_state, GameState::Aiming);
    assert_eq!(g.message, Message::Aim(PlayerId::Player1));
    assert!(!g.balls[0].in_pocket);
    assert_eq!(g.balls[0].pos, Vec2i { x: 100_000, y: 300_000 });
    assert_eq!(g.balls[0].vel, Vec2i { x: 0, y: 0 });
}

#[test]
fn game_over_is_terminal_until_reset() {
    let mut g = Game::new(W, H, R);
    g.potted_ball_numbers_this_turn.push(8);
    g.handle_player_turn_end();
    assert_eq!(g.game_state, GameState::GameOver);
    let balls = g.balls.clone();
    let msg = g.message;
    g.update();
    assert_eq!(g.game_state, GameState::GameOver);
    assert_eq!(g.balls, balls);
    assert_eq!(g.message, msg);
    assert!(!g.begin_shot(100_000, 0));
    assert_eq!(g.game_state, GameState::GameOver);
    g.reset_match();
    assert_eq!(g.game_state, GameState::Aiming);
    assert!(g.balls.iter().all(|b| !b.in_pocket));
}

#[test]
fn update_is_a_no_op_outside_motion_phases() {
    let mut g = Game::new(W, H, R);
    let before = g.balls.clone();
    g.update();
    assert_eq!(g.balls, before);
    assert_eq!(g.game_state, GameState::Aiming);
}
