//! The shot-outcome rule engine: consumes the balls potted during a
//! settled shot and decides group assignment, turn continuation, and
//! win or loss on the 8 ball.
use vstd::prelude::*;

use crate::ball::{is_solid_number, is_stripe_number, Ball};
use crate::game::Game;
use crate::types::{GameState, Message, PlayerGroup, PlayerId};

verus! {

/// Does the number belong to the given group?
pub open spec fn num_in_group(n: u8, g: PlayerGroup) -> bool {
    ||| g == PlayerGroup::Solids && is_solid_number(n)
    ||| g == PlayerGroup::Stripes && is_stripe_number(n)
}

/// The group of the first object ball potted this shot, if any.
pub open spec fn first_potted_group(p: Seq<u8>) -> Option<PlayerGroup>
    decreases p.len(),
{
    if p.len() == 0 {
        None
    } else if is_solid_number(p[0]) {
        Some(PlayerGroup::Solids)
    } else if is_stripe_number(p[0]) {
        Some(PlayerGroup::Stripes)
    } else {
        first_potted_group(p.drop_first())
    }
}

/// How many potted numbers belong to the group.
pub open spec fn count_in_group(p: Seq<u8>, g: PlayerGroup) -> int
    decreases p.len(),
{
    if p.len() == 0 {
        0
    } else {
        count_in_group(p.drop_last(), g) + if num_in_group(p.last(), g) {
            1int
        } else {
            0int
        }
    }
}

/// How many balls of the group are still on the table (the cue ball
/// and the 8 are in no group, so they never count).
pub open spec fn remaining_in_group(balls: Seq<Ball>, g: PlayerGroup) -> int
    decreases balls.len(),
{
    if balls.len() == 0 {
        0
    } else {
        remaining_in_group(balls.drop_last(), g) + if !balls.last().in_pocket && num_in_group(
            balls.last().number,
            g,
        ) {
            1int
        } else {
            0int
        }
    }
}

/// Verdict on a shot that pots the 8 ball: who won, and the message.
/// Potting the 8 with a scratch, on an open table, or with own-group
/// balls still up loses at once; otherwise it wins the match.
pub open spec fn eight_ball_outcome(
    balls: Seq<Ball>,
    cur: PlayerId,
    cg: PlayerGroup,
    cue_pocketed: bool,
) -> (Option<PlayerId>, Message) {
    if cue_pocketed {
        (None, Message::LostEightWithScratch(cur))
    } else if cg == PlayerGroup::Undecided {
        (None, Message::LostEightOpenTable(cur))
    } else if cg == PlayerGroup::EightBall {
        (Some(cur), Message::Won(cur))
    } else if remaining_in_group(balls, cg) == 0 {
        (Some(cur), Message::Won(cur))
    } else {
        (None, Message::LostEightPremature(cur))
    }
}

/// A player whose whole group is down only needs the 8 ball.
pub open spec fn upgrade_group(balls: Seq<Ball>, g: PlayerGroup) -> PlayerGroup {
    if (g == PlayerGroup::Solids || g == PlayerGroup::Stripes) && remaining_in_group(balls, g)
        == 0 {
        PlayerGroup::EightBall
    } else {
        g
    }
}

/// Messages that invite the same or next player to shoot again; only
/// these are upgraded to the "pot the 8 to win" notice.
pub open spec fn message_invites_replay(m: Message) -> bool {
    ||| m matches Message::Aim(_)
    ||| m matches Message::GoodShot(_)
    ||| m matches Message::OpenTableAgain(_)
}

/// Everything the rule engine decides from one settled shot.
pub ghost struct RuleOutcome {
    pub group1: PlayerGroup,
    pub group2: PlayerGroup,
    pub current: PlayerId,
    pub phase: GameState,
    pub message: Message,
}

/// The complete rule-engine transition for one settled shot.
pub open spec fn turn_end_spec(
    balls: Seq<Ball>,
    potted: Seq<u8>,
    cue_pocketed: bool,
    cur: PlayerId,
    g1: PlayerGroup,
    g2: PlayerGroup,
) -> RuleOutcome {
    let cg = if cur == PlayerId::Player1 {
        g1
    } else {
        g2
    };
    if potted.contains(8) {
        let (_winner, msg) = eight_ball_outcome(balls, cur, cg, cue_pocketed);
        RuleOutcome { group1: g1, group2: g2, current: cur, phase: GameState::GameOver, message: msg }
    } else {
        let first = first_potted_group(potted);
        let assigned = cg == PlayerGroup::Undecided && first is Some;
        let ng1 = if assigned && cur == PlayerId::Player1 {
            first->0
        } else if assigned {
            first->0.spec_opposite()
        } else {
            g1
        };
        let ng2 = if assigned && cur == PlayerId::Player2 {
            first->0
        } else if assigned {
            first->0.spec_opposite()
        } else {
            g2
        };
        let continues = if cg == PlayerGroup::Undecided {
            potted.len() > 0
        } else {
            count_in_group(potted, cg) > 0
        };
        let passes = !continues || cue_pocketed;
        let ncur = if passes {
            cur.spec_next()
        } else {
            cur
        };
        let phase = if cue_pocketed {
            GameState::RepositionCueBall
        } else {
            GameState::Aiming
        };
        let msg = if cue_pocketed {
            Message::ScratchReposition(cur.spec_next())
        } else if !continues {
            Message::Aim(ncur)
        } else if assigned {
            Message::GroupAssigned(cur, first->0)
        } else if cg == PlayerGroup::Undecided {
            Message::OpenTableAgain(cur)
        } else {
            Message::GoodShot(cur)
        };
        let ug1 = upgrade_group(balls, ng1);
        let ug2 = upgrade_group(balls, ng2);
        let cgf = if ncur == PlayerId::Player1 {
            ug1
        } else {
            ug2
        };
        let msg2 = if cgf == PlayerGroup::EightBall && message_invites_replay(msg) {
            Message::PotEightToWin(ncur)
        } else {
            msg
        };
        RuleOutcome { group1: ug1, group2: ug2, current: ncur, phase, message: msg2 }
    }
}

/// Whether the shot record mentions the 8 ball.
fn contains_eight(v: &Vec<u8>) -> (r: bool)
    ensures
        r == v@.contains(8u8),
{
    let mut i: usize = 0;
    while i < v.len()
        invariant
            0 <= i <= v@.len(),
            forall|j: int| 0 <= j < i ==> v@[j] != 8u8,
        decreases v@.len() - i,
    {
        if *v.get(i).unwrap() == 8 {
            assert(v@.contains(8u8));
            return true;
        }
        i = i + 1;
    }
    assert(!v@.contains(8u8)) by {
        if v@.contains(8u8) {
            let j = choose|j: int| 0 <= j < v@.len() && v@[j] == 8u8;
        }
    }
    false
}

/// First potted group, executable form.
fn first_potted_group_exec(v: &Vec<u8>) -> (r: Option<PlayerGroup>)
    ensures
        r == first_potted_group(v@),
{
    let mut i: usize = 0;
    proof {
        assert(v@.skip(0) =~= v@);
    }
    while i < v.len()
        invariant
            0 <= i <= v@.len(),
            first_potted_group(v@) == first_potted_group(v@.skip(i as int)),
        decreases v@.len() - i,
    {
        let n = *v.get(i).unwrap();
        proof {
            assert(v@.skip(i as int).len() > 0);
            assert(v@.skip(i as int)[0] == v@[i as int]);
            assert(v@.skip(i as int).drop_first() =~= v@.skip(i as int + 1));
        }
        if 1 <= n && n <= 7 {
            return Some(PlayerGroup::Solids);
        }
        if 9 <= n && n <= 15 {
            return Some(PlayerGroup::Stripes);
        }
        i = i + 1;
    }
    proof {
        assert(v@.skip(v@.len() as int).len() == 0);
    }
    None
}

/// Count of potted numbers in a group, executable form.
fn count_in_group_exec(v: &Vec<u8>, g: PlayerGroup) -> (r: usize)
    ensures
        r == count_in_group(v@, g),
{
    let mut c: usize = 0;
    let mut i: usize = 0;
    proof {
        lemma_count_in_group_bounds(v@, g);
    }
    while i < v.len()
        invariant
            0 <= i <= v@.len(),
            c == count_in_group(v@.take(i as int), g),
            c <= i,
        decreases v@.len() - i,
    {
        let n = *v.get(i).unwrap();
        proof {
            assert(v@.take(i as int + 1).drop_last() =~= v@.take(i as int));
            assert(v@.take(i as int + 1).last() == v@[i as int]);
        }
        let hit = match g {
            PlayerGroup::Solids => 1 <= n && n <= 7,
            PlayerGroup::Stripes => 9 <= n && n <= 15,
            _ => false,
        };
        if hit {
            c = c + 1;
        }
        i = i + 1;
    }
    proof {
        assert(v@.take(v@.len() as int) =~= v@);
    }
    c
}

proof fn lemma_count_in_group_bounds(p: Seq<u8>, g: PlayerGroup)
    ensures
        0 <= count_in_group(p, g) <= p.len(),
    decreases p.len(),
{
    if p.len() > 0 {
        lemma_count_in_group_bounds(p.drop_last(), g);
    }
}

proof fn lemma_remaining_bounds(balls: Seq<Ball>, g: PlayerGroup)
    ensures
        0 <= remaining_in_group(balls, g) <= balls.len(),
    decreases balls.len(),
{
    if balls.len() > 0 {
        lemma_remaining_bounds(balls.drop_last(), g);
    }
}

/// Balls of the group still up, executable form.
fn remaining_in_group_exec(balls: &Vec<Ball>, g: PlayerGroup) -> (r: usize)
    ensures
        r == remaining_in_group(balls@, g),
{
    let mut c: usize = 0;
    let mut i: usize = 0;
    proof {
        lemma_remaining_bounds(balls@, g);
    }
    while i < balls.len()
        invariant
            0 <= i <= balls@.len(),
            c == remaining_in_group(balls@.take(i as int), g),
            c <= i,
        decreases balls@.len() - i,
    {
        let b = *balls.get(i).unwrap();
        proof {
            assert(balls@.take(i as int + 1).drop_last() =~= balls@.take(i as int));
            assert(balls@.take(i as int + 1).last() == balls@[i as int]);
        }
        let hit = !b.in_pocket && (match g {
            PlayerGroup::Solids => 1 <= b.number && b.number <= 7,
            PlayerGroup::Stripes => 9 <= b.number && b.number <= 15,
            _ => false,
        });
        if hit {
            c = c + 1;
        }
        i = i + 1;
    }
    proof {
        assert(balls@.take(balls@.len() as int) =~= balls@);
    }
    c
}

impl Game {
    /// Adjudicate a potted 8 ball, without touching any state.
    pub fn check_eight_ball_pot_legality(
        &self,
        player_group_before_pot: PlayerGroup,
        cue_ball_was_pocketed: bool,
    ) -> (r: (Option<PlayerId>, Message))
        ensures
            r == eight_ball_outcome(
                self.balls@,
                self.current_player,
                player_group_before_pot,
                cue_ball_was_pocketed,
            ),
    {
        if cue_ball_was_pocketed {
            return (None, Message::LostEightWithScratch(self.current_player));
        }
        if matches!(player_group_before_pot, PlayerGroup::Undecided) {
            return (None, Message::LostEightOpenTable(self.current_player));
        }
        if matches!(player_group_before_pot, PlayerGroup::EightBall) {
            return (Some(self.current_player), Message::Won(self.current_player));
        }
        let remaining = remaining_in_group_exec(&self.balls, player_group_before_pot);
        if remaining == 0 {
            (Some(self.current_player), Message::Won(self.current_player))
        } else {
            (None, Message::LostEightPremature(self.current_player))
        }
    }

    /// Upgrade players whose whole group is down to "8 ball only",
    /// and, where the standing message invites another shot, point
    /// the current player at the 8 ball.
    pub fn update_player_groups_if_only_eight_ball_left(&mut self)
        ensures
            *final(self) == (Game {
                player1_group: upgrade_group(old(self).balls@, old(self).player1_group),
                player2_group: upgrade_group(old(self).balls@, old(self).player2_group),
                message: final(self).message,
                ..*old(self)
            }),
            final(self).message == ({
                let cgf = if old(self).current_player == PlayerId::Player1 {
                    upgrade_group(old(self).balls@, old(self).player1_group)
                } else {
                    upgrade_group(old(self).balls@, old(self).player2_group)
                };
                if cgf == PlayerGroup::EightBall && message_invites_replay(old(self).message) {
                    Message::PotEightToWin(old(self).current_player)
                } else {
                    old(self).message
                }
            }),
    {
        let g1 = self.player1_group;
        if matches!(g1, PlayerGroup::Solids) || matches!(g1, PlayerGroup::Stripes) {
            if remaining_in_group_exec(&self.balls, g1) == 0 {
                self.player1_group = PlayerGroup::EightBall;
            }
        }
        let g2 = self.player2_group;
        if matches!(g2, PlayerGroup::Solids) || matches!(g2, PlayerGroup::Stripes) {
            if remaining_in_group_exec(&self.balls, g2) == 0 {
                self.player2_group = PlayerGroup::EightBall;
            }
        }
        let cgf = if matches!(self.current_player, PlayerId::Player1) {
            self.player1_group
        } else {
            self.player2_group
        };
        let invites = matches!(
            self.message,
            Message::Aim(_) | Message::GoodShot(_) | Message::OpenTableAgain(_)
        );
        if matches!(cgf, PlayerGroup::EightBall) && invites {
            self.message = Message::PotEightToWin(self.current_player);
        }
    }

    /// The single synchronization point between the continuous and the
    /// discrete halves: consume the shot record once all balls have
    /// settled, and decide groups, turn, message and the next phase.
    pub fn handle_player_turn_end(&mut self)
        requires
            old(self).wf(),
            forall|i: int|
                0 <= i < 16 ==> (#[trigger] old(self).balls@[i]).vel == (crate::geom::Vec2i {
                    x: 0i64,
                    y: 0i64,
                }),
        ensures
            final(self).wf(),
            ({
                let o = turn_end_spec(
                    old(self).balls@,
                    old(self).potted_ball_numbers_this_turn@,
                    old(self).balls@[old(self).cue_ball_idx as int].in_pocket,
                    old(self).current_player,
                    old(self).player1_group,
                    old(self).player2_group,
                );
                &&& final(self).player1_group == o.group1
                &&& final(self).player2_group == o.group2
                &&& final(self).current_player == o.current
                &&& final(self).game_state == o.phase
                &&& final(self).message == o.message
            }),
            final(self).potted_ball_numbers_this_turn@ == Seq::<u8>::empty(),
            final(self).is_break_shot == (if old(self).potted_ball_numbers_this_turn@.contains(8u8) {
                old(self).is_break_shot
            } else {
                false
            }),
            final(self).balls@ == old(self).balls@,
            final(self).pockets@ == old(self).pockets@,
            final(self).cue_ball_idx == old(self).cue_ball_idx,
            final(self).table_width == old(self).table_width,
            final(self).table_height == old(self).table_height,
            final(self).ball_radius == old(self).ball_radius,
            final(self).pocket_radius == old(self).pocket_radius,
            final(self).player1_pocketed_balls@ == old(self).player1_pocketed_balls@,
            final(self).player2_pocketed_balls@ == old(self).player2_pocketed_balls@,
    {
        let cue_ball_is_pocketed = self.balls[self.cue_ball_idx].in_pocket;
        let current_player_group = if matches!(self.current_player, PlayerId::Player1) {
            self.player1_group
        } else {
            self.player2_group
        };
        if contains_eight(&self.potted_ball_numbers_this_turn) {
            let (_winner, msg) = self.check_eight_ball_pot_legality(
                current_player_group,
                cue_ball_is_pocketed,
            );
            self.message = msg;
            self.game_state = GameState::GameOver;
            self.potted_ball_numbers_this_turn = Vec::new();
            return ;
        }
        let first = first_potted_group_exec(&self.potted_ball_numbers_this_turn);
        let own_count = count_in_group_exec(
            &self.potted_ball_numbers_this_turn,
            current_player_group,
        );
        let mut player_continues_turn = false;
        if matches!(current_player_group, PlayerGroup::Undecided) {
            if let Some(potted_type) = first {
                if matches!(self.current_player, PlayerId::Player1) {
                    self.player1_group = potted_type;
                    self.player2_group = potted_type.opposite();
                } else {
                    self.player2_group = potted_type;
                    self.player1_group = potted_type.opposite();
                }
                self.message = Message::GroupAssigned(self.current_player, potted_type);
                player_continues_turn = true;
            } else if self.potted_ball_numbers_this_turn.len() > 0 {
                self.message = Message::OpenTableAgain(self.current_player);
                player_continues_turn = true;
            }
        } else {
            if own_count > 0 {
                self.message = Message::GoodShot(self.current_player);
                player_continues_turn = true;
            }
        }
        if cue_ball_is_pocketed {
            self.message = Message::ScratchReposition(self.current_player.next());
            self.game_state = GameState::RepositionCueBall;
        }
        self.is_break_shot = false;
        if !player_continues_turn || cue_ball_is_pocketed {
            self.current_player = self.current_player.next();
        }
        if !cue_ball_is_pocketed {
            self.game_state = GameState::Aiming;
            if !player_continues_turn {
                self.message = Message::Aim(self.current_player);
            }
        }
        self.update_player_groups_if_only_eight_ball_left();
        self.potted_ball_numbers_this_turn = Vec::new();
    }
}

} // verus!
