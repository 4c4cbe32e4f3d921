//! Rule-engine scenarios: group assignment, scratches, and every
//! outcome of potting the 8 ball.
use potshot::ball::Ball;
use potshot::game::Game;
use potshot::types::{GameState, Message, PlayerGroup, PlayerId};

const W: i64 = 2_000_000;
const H: i64 = 1_000_000;
const R: i64 = 17_000;

fn fresh() -> Game {
    Game::new(W, H, R)
}

fn pocket_number(g: &mut Game, number: u8) {
    for i in 0..g.balls.len() {
        if g.balls[i].number == number {
            let mut b = g.balls[i];
            b.in_pocket = true;
            g.balls[i] = b;
        }
    }
}

#[test]
fn open_table_stripe_pot_assigns_groups_and_continues() {
    let mut g = fresh();
    g.potted_ball_numbers_this_turn.push(9);
    g.handle_player_turn_end();
    assert_eq!(g.player1_group, PlayerGroup::Stripes);
    assert_eq!(g.player2_group, PlayerGroup::Solids);
    assert_eq!(g.current_player, PlayerId::Player1);
    assert_eq!(g.game_state, GameState::Aiming);
    assert_eq!(
        g.message,
        Message::GroupAssigned(PlayerId::Player1, PlayerGroup::Stripes)
    );
    assert!(g.potted_ball_numbers_this_turn.is_empty());
}

#[test]
fn open_table_solid_pot_assigns_solids() {
    let mut g = fresh();
    g.potted_ball_numbers_this_turn.push(3);
    g.handle_player_turn_end();
    assert_eq!(g.player1_group, PlayerGroup::Solids);
    assert_eq!(g.player2_group, PlayerGroup::Stripes);
    assert_eq!(g.current_player, PlayerId::Player1);
}

#[test]
fn eight_with_scratch_loses_regardless_of_groups() {
    let mut g = fresh();
    g.potted_ball_numbers_this_turn.push(8);
    pocket_number(&mut g, 0);
    pocket_number(&mut g, 8);
    g.handle_player_turn_end();
    assert_eq!(g.game_state, GameState::GameOver);
    assert_eq!(g.message, Message::LostEightWithScratch(PlayerId::Player1));
}

#[test]
fn eight_on_open_table_loses() {
    let mut g = fresh();
    g.potted_ball_numbers_this_turn.push(8);
    pocket_number(&mut g, 8);
    g.handle_player_turn_end();
    assert_eq!(g.game_state, GameState::GameOver);
    assert_eq!(g.message, Message::LostEightOpenTable(PlayerId::Player1));
}

#[test]
fn eight_with_no_solids_left_wins() {
    let mut g = fresh();
    g.player1_group = PlayerGroup::Solids;
    g.player2_group = PlayerGroup::Stripes;
    for n in 1..=7 {
        pocket_number(&mut g, n);
    }
    pocket_number(&mut g, 8);
    g.potted_ball_numbers_this_turn.push(8);
    g.handle_player_turn_end();
    assert_eq!(g.game_state, GameState::GameOver);
    assert_eq!(g.message, Message::Won(PlayerId::Player1));
}

#[test]
fn eight_with_solids_left_is_premature_loss() {
    let mut g = fresh();
    g.player1_group = PlayerGroup::Solids;
    g.player2_group = PlayerGroup::Stripes;
    pocket_number(&mut g, 8);
    g.potted_ball_numbers_this_turn.push(8);
    g.handle_player_turn_end();
    assert_eq!(g.game_state, GameState::GameOver);
    assert_eq!(g.message, Message::LostEightPremature(PlayerId::Player1));
}

#[test]
fn eight_when_marked_eight_ball_only_wins() {
    let mut g = fresh();
    g.player1_group = PlayerGroup::EightBall;
    g.player2_group = PlayerGroup::Stripes;
    pocket_number(&mut g, 8);
    g.potted_ball_numbers_this_turn.push(8);
    g.handle_player_turn_end();
    assert_eq!(g.game_state, GameState::GameOver);
    assert_eq!(g.message, Message::Won(PlayerId::Player1));
}

#[test]
fn no_pot_passes_turn() {
    let mut g = fresh();
    g.handle_player_turn_end();
    assert_eq!(g.current_player, PlayerId::Player2);
    assert_eq!(g.game_state, GameState::Aiming);
    assert_eq!(g.message, Message::Aim(PlayerId::Player2));
    assert_eq!(g.player1_group, PlayerGroup::Undecided);
    assert_eq!(g.player2_group, PlayerGroup::Undecided);
}

#[test]
fn own_group_pot_continues_turn() {
    let mut g = fresh();
    g.player1_group = PlayerGroup::Solids;
    g.player2_group = PlayerGroup::Stripes;
    pocket_number(&mut g, 2);
    g.potted_ball_numbers_this_turn.push(2);
    g.handle_player_turn_end();
    assert_eq!(g.current_player, PlayerId::Player1);
    assert_eq!(g.message, Message::GoodShot(PlayerId::Player1));
    assert_eq!(g.game_state, GameState::Aiming);
}

#[test]
fn wrong_group_pot_passes_turn() {
    let mut g = fresh();
    g.player1_group = PlayerGroup::Solids;
    g.player2_group = PlayerGroup::Stripes;
    pocket_number(&mut g, 9);
    g.potted_ball_numbers_this_turn.push(9);
    g.handle_player_turn_end();
    assert_eq!(g.current_player, PlayerId::Player2);
    assert_eq!(g.message, Message::Aim(PlayerId::Player2));
}

#[test]
fn scratch_forces_reposition_and_turn_pass() {
    let mut g = fresh();
    g.player1_group = PlayerGroup::Solids;
    g.player2_group = PlayerGroup::Stripes;
    pocket_number(&mut g, 0);
    pocket_number(&mut g, 2);
    g.potted_ball_numbers_this_turn.push(2);
    g.handle_player_turn_end();
    assert_eq!(g.game_state, GameState::RepositionCueBall);
    assert_eq!(g.current_player, PlayerId::Player2);
    assert_eq!(g.message, Message::ScratchReposition(PlayerId::Player2));
}

#[test]
fn scratch_on_open_table_still_assigns_groups() {
    let mut g = fresh();
    pocket_number(&mut g, 0);
    pocket_number(&mut g, 9);
    g.potted_ball_numbers_this_turn.push(9);
    g.handle_player_turn_end();
    assert_eq!(g.game_state, GameState::RepositionCueBall);
    assert_eq!(g.player1_group, PlayerGroup::Stripes);
    assert_eq!(g.player2_group, PlayerGroup::Solids);
    assert_eq!(g.current_player, PlayerId::Player2);
}

#[test]
fn last_own_ball_upgrades_to_eight_ball_notice() {
    let mut g = fresh();
    g.player1_group = PlayerGroup::Solids;
    g.player2_group = PlayerGroup::Stripes;
    for n in 1..=7 {
        pocket_number(&mut g, n);
    }
    g.potted_ball_numbers_this_turn.push(7);
    g.handle_player_turn_end();
    assert_eq!(g.player1_group, PlayerGroup::EightBall);
    assert_eq!(g.current_player, PlayerId::Player1);
    assert_eq!(g.message, Message::PotEightToWin(PlayerId::Player1));
}

#[test]
fn eight_ball_legality_is_pure() {
    let mut g = fresh();
    g.player1_group = PlayerGroup::Solids;
    let (winner, msg) = g.check_eight_ball_pot_legality(PlayerGroup::Solids, true);
    assert_eq!(winner, None);
    assert_eq!(msg, Message::LostEightWithScratch(PlayerId::Player1));
    let (winner2, _) = g.check_eight_ball_pot_legality(PlayerGroup::Solids, false);
    assert_eq!(winner2, None);
    for n in 1..=7 {
        pocket_number(&mut g, n);
    }
    let (winner3, msg3) = g.check_eight_ball_pot_legality(PlayerGroup::Solids, false);
    assert_eq!(winner3, Some(PlayerId::Player1));
    assert_eq!(msg3, Message::Won(PlayerId::Player1));
}

#[test]
fn group_upgrade_only_when_group_is_cleared() {
    let mut g = fresh();
    g.player1_group = PlayerGroup::Solids;
    g.player2_group = PlayerGroup::Stripes;
    g.update_player_groups_if_only_eight_ball_left();
    assert_eq!(g.player1_group, PlayerGroup::Solids);
    for n in 9..=15 {
        pocket_number(&mut g, n);
    }
    g.update_player_groups_if_only_eight_ball_left();
    assert_eq!(g.player1_group, PlayerGroup::Solids);
    assert_eq!(g.player2_group, PlayerGroup::EightBall);
}

#[test]
fn player_next_alternates() {
    assert_eq!(PlayerId::Player1.next(), PlayerId::Player2);
    assert_eq!(PlayerId::Player2.next(), PlayerId::Player1);
}

#[test]
fn ball_groups_follow_numbers() {
    let g = fresh();
    for b in g.balls.iter() {
        let expect = (9..=15).contains(&b.number);
        assert_eq!(b.is_striped, expect, "ball {}", b.number);
    }
    let defs = potshot::config::get_ball_definitions();
    assert_eq!(defs.len(), 15);
    for (i, d) in defs.iter().enumerate() {
        assert_eq!(d.number as usize, i + 1);
        assert_eq!(d.is_striped, d.number >= 9);
    }
    let _ = Ball::new(0, 0, 1, false, R);
}
