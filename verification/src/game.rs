//! The match itself: table geometry, the sixteen balls, pockets, and
//! the discrete match state the rule engine works on.
use vstd::prelude::*;

use crate::ball::{
    is_stripe_number, lemma_total_energy_update, lemma_total_energy_zero, total_energy, Ball,
};
use crate::constants::{
    DIM_LIMIT, ENERGY_LIMIT, MIN_SHOT_SPEED_SQ, POS_SLOP, RADIUS_LIMIT,
};
use crate::geom::{tdiv, tdiv64, Vec2i};
use crate::pocket::Pocket;
use crate::types::{GameState, Message, PlayerGroup, PlayerId};

verus! {

pub struct Game {
    pub table_width: i64,
    pub table_height: i64,
    pub ball_radius: i64,
    pub pocket_radius: i64,
    pub balls: Vec<Ball>,
    pub pockets: Vec<Pocket>,
    pub cue_ball_idx: usize,
    pub game_state: GameState,
    pub message: Message,
    pub current_player: PlayerId,
    pub player1_group: PlayerGroup,
    pub player2_group: PlayerGroup,
    pub potted_ball_numbers_this_turn: Vec<u8>,
    pub is_break_shot: bool,
    pub player1_pocketed_balls: Vec<u8>,
    pub player2_pocketed_balls: Vec<u8>,
}

/// A single ball as the table invariant sees it.
pub open spec fn wf_ball(b: Ball, width: i64, height: i64) -> bool {
    &&& 1 <= b.radius <= RADIUS_LIMIT
    &&& 2 * b.radius <= width
    &&& 2 * b.radius <= height
    &&& b.number <= 15
    &&& b.is_striped == is_stripe_number(b.number)
    &&& -POS_SLOP <= b.pos.x <= width + POS_SLOP
    &&& -POS_SLOP <= b.pos.y <= height + POS_SLOP
    &&& b.in_pocket ==> b.vel == (Vec2i { x: 0i64, y: 0i64 })
}

pub open spec fn wf_pocket(p: Pocket, width: i64, height: i64) -> bool {
    &&& 0 <= p.radius <= 4 * RADIUS_LIMIT
    &&& -4 * RADIUS_LIMIT <= p.pos.x <= width + 4 * RADIUS_LIMIT
    &&& -4 * RADIUS_LIMIT <= p.pos.y <= height + 4 * RADIUS_LIMIT
}

impl Game {
    /// The well-formedness invariant every public operation preserves.
    pub open spec fn wf(self) -> bool {
        &&& 1 <= self.ball_radius <= RADIUS_LIMIT
        &&& 32 * self.ball_radius <= self.table_width <= DIM_LIMIT
        &&& 16 * self.ball_radius <= self.table_height <= DIM_LIMIT
        &&& self.balls@.len() == 16
        &&& self.cue_ball_idx < 16
        &&& self.balls@[self.cue_ball_idx as int].number == 0
        &&& forall|i: int|
            0 <= i < 16 ==> wf_ball(#[trigger] self.balls@[i], self.table_width, self.table_height)
        &&& forall|i: int|
            0 <= i < 16 && i != self.cue_ball_idx ==> (#[trigger] self.balls@[i]).number != 0
        &&& total_energy(self.balls@) <= ENERGY_LIMIT
        // Groups are assigned atomically: the table is open for both
        // players or for neither.
        &&& (self.player1_group == PlayerGroup::Undecided <==> self.player2_group
            == PlayerGroup::Undecided)
        &&& (self.game_state != GameState::Shooting && self.game_state != GameState::BallsMoving)
            ==> forall|i: int|
            0 <= i < 16 ==> (#[trigger] self.balls@[i]).vel == (Vec2i { x: 0i64, y: 0i64 })
        &&& self.pockets@.len() == 6
        &&& forall|i: int|
            0 <= i < 6 ==> wf_pocket(
                #[trigger] self.pockets@[i],
                self.table_width,
                self.table_height,
            )
    }
}

/// The ball number racked at triangle slot `k` (0-based, 15 slots):
/// the 8 ball sits at the center of the third row.
pub open spec fn rack_number(k: int) -> u8 {
    if k == 0 {
        1
    } else if k == 1 {
        9
    } else if k == 2 {
        2
    } else if k == 3 {
        11
    } else if k == 4 {
        8
    } else if k == 5 {
        3
    } else if k == 6 {
        4
    } else if k == 7 {
        13
    } else if k == 8 {
        10
    } else if k == 9 {
        15
    } else if k == 10 {
        5
    } else if k == 11 {
        7
    } else if k == 12 {
        14
    } else if k == 13 {
        6
    } else {
        12
    }
}

pub open spec fn rack_row(k: int) -> int {
    if k < 1 {
        0
    } else if k < 3 {
        1
    } else if k < 6 {
        2
    } else if k < 10 {
        3
    } else {
        4
    }
}

pub open spec fn rack_col(k: int) -> int {
    if k < 1 {
        k
    } else if k < 3 {
        k - 1
    } else if k < 6 {
        k - 3
    } else if k < 10 {
        k - 6
    } else {
        k - 10
    }
}

/// Horizontal spacing between rack rows: the ball diameter times
/// cos(30 degrees), in exact fixed-point form.
pub open spec fn rack_step(r: i64) -> int {
    tdiv(r * 1732050, 1000000)
}

/// The cue ball's spot: a quarter of the way along the table.
pub open spec fn cue_spec(width: i64, height: i64, r: i64) -> Ball {
    Ball {
        pos: Vec2i { x: tdiv(width as int, 4) as i64, y: tdiv(height as int, 2) as i64 },
        vel: Vec2i { x: 0i64, y: 0i64 },
        radius: r,
        number: 0,
        is_striped: false,
        in_pocket: false,
    }
}

/// Object ball at rack slot `k`, in the triangle whose apex sits at
/// seven tenths of the table width.
pub open spec fn rack_ball(k: int, width: i64, height: i64, r: i64) -> Ball {
    let row = rack_row(k);
    let col = rack_col(k);
    let x = tdiv(width * 7, 10) + row * rack_step(r);
    let y = tdiv(height as int, 2) + col * (2 * r) - row * r;
    Ball {
        pos: Vec2i { x: x as i64, y: y as i64 },
        vel: Vec2i { x: 0i64, y: 0i64 },
        radius: r,
        number: rack_number(k),
        is_striped: is_stripe_number(rack_number(k)),
        in_pocket: false,
    }
}

/// All sixteen balls of a fresh rack: the cue ball first, then the
/// triangle.
pub open spec fn balls_spec(width: i64, height: i64, r: i64) -> Seq<Ball> {
    Seq::new(16, |i: int| if i == 0 {
        cue_spec(width, height, r)
    } else {
        rack_ball(i - 1, width, height, r)
    })
}

/// The six pockets: four corners plus two mid-rail pockets that are
/// slightly smaller and tucked into the rail.
pub open spec fn pockets_spec(width: i64, height: i64, r: i64) -> Seq<Pocket> {
    let pr = tdiv(r * 9, 5);
    let off = tdiv(pr, 10);
    let mid_pr = tdiv(pr * 9, 10);
    let mid_dip = tdiv(pr * 2, 5);
    seq![
        Pocket { pos: Vec2i { x: off as i64, y: off as i64 }, radius: pr as i64 },
        Pocket { pos: Vec2i { x: (width - off) as i64, y: off as i64 }, radius: pr as i64 },
        Pocket { pos: Vec2i { x: off as i64, y: (height - off) as i64 }, radius: pr as i64 },
        Pocket {
            pos: Vec2i { x: (width - off) as i64, y: (height - off) as i64 },
            radius: pr as i64,
        },
        Pocket {
            pos: Vec2i { x: tdiv(width as int, 2) as i64, y: (off - mid_dip) as i64 },
            radius: mid_pr as i64,
        },
        Pocket {
            pos: Vec2i { x: tdiv(width as int, 2) as i64, y: (height - off + mid_dip) as i64 },
            radius: mid_pr as i64,
        },
    ]
}

impl Game {
    /// A fresh rack: full triangle, cue ball on its spot, player 1 to
    /// break, open table, `Aiming` phase.
    pub open spec fn is_fresh(self, width: i64, height: i64, r: i64) -> bool {
        &&& self.table_width == width
        &&& self.table_height == height
        &&& self.ball_radius == r
        &&& self.pocket_radius == tdiv(r * 9, 5) as i64
        &&& self.balls@ == balls_spec(width, height, r)
        &&& self.pockets@ == pockets_spec(width, height, r)
        &&& self.cue_ball_idx == 0
        &&& self.game_state == GameState::Aiming
        &&& self.message == Message::MatchStart(PlayerId::Player1)
        &&& self.current_player == PlayerId::Player1
        &&& self.player1_group == PlayerGroup::Undecided
        &&& self.player2_group == PlayerGroup::Undecided
        &&& self.potted_ball_numbers_this_turn@ == Seq::<u8>::empty()
        &&& self.is_break_shot
        &&& self.player1_pocketed_balls@ == Seq::<u8>::empty()
        &&& self.player2_pocketed_balls@ == Seq::<u8>::empty()
    }

    /// Set up a fresh match on a table of the given dimensions.
    pub fn new(table_width: i64, table_height: i64, ball_radius: i64) -> (g: Game)
        requires
            1 <= ball_radius <= RADIUS_LIMIT,
            32 * ball_radius <= table_width <= DIM_LIMIT,
            16 * ball_radius <= table_height <= DIM_LIMIT,
        ensures
            g.wf(),
            g.is_fresh(table_width, table_height, ball_radius),
    {
        let r = ball_radius;
        let mut balls: Vec<Ball> = Vec::new();
        balls.push(
            Ball::new(tdiv64(table_width, 4), tdiv64(table_height, 2), 0, false, r),
        );
        let start_x = tdiv64(table_width * 7, 10);
        let start_y = tdiv64(table_height, 2);
        let step = tdiv64(r * 1732050, 1000000);
        proof {
            crate::geom::lemma_tdiv_bounds(table_width * 7, 10);
            crate::geom::lemma_tdiv_bounds(r * 1732050, 1000000);
            assert(r * 1732050 <= 2000000 * r) by (nonlinear_arith)
                requires
                    r >= 1,
            ;
            assert(1000000 * (2 * r) >= r * 1732050) by (nonlinear_arith)
                requires
                    r >= 1,
            ;
            assert(step <= 2 * r) by (nonlinear_arith)
                requires
                    1000000 * (step as int) <= r * 1732050,
                    r * 1732050 <= 1000000 * (2 * r),
            ;
            assert(0 <= tdiv(table_width * 7, 10) <= table_width * 7);
        }
        let mut k: usize = 0;
        while k < 15
            invariant
                0 <= k <= 15,
            balls@.len() == k + 1,
                balls@[0] == cue_spec(table_width, table_height, r),
                forall|j: int| 0 <= j < k ==> balls@[j + 1] == rack_ball(j, table_width, table_height, r),
                start_x == tdiv(table_width * 7, 10),
                start_y == tdiv(table_height as int, 2),
                step == rack_step(r),
                0 <= step <= 2 * r,
                1 <= r <= RADIUS_LIMIT,
                32 * r <= table_width <= DIM_LIMIT,
                16 * r <= table_height <= DIM_LIMIT,
                0 <= start_x <= table_width,
                0 <= start_y <= table_height,
            decreases 15 - k,
        {
            let (row, col) = rack_slot(k);
            let number = rack_number_at(k);
            assert(0 <= (row as i64) * step <= 8 * r && 0 <= (col as i64) * (2 * r) <= 8 * r && 0
                <= (row as i64) * r <= 4 * r) by (nonlinear_arith)
                requires
                    0 <= row <= 4,
                    0 <= col <= 4,
                    0 <= step <= 2 * r,
                    1 <= r,
            ;
            let x = start_x + (row as i64) * step;
            let y = start_y + (col as i64) * (2 * r) - (row as i64) * r;
            balls.push(Ball::new(x, y, number, number >= 9, r));
            k = k + 1;
        }
        let mut pockets: Vec<Pocket> = Vec::new();
        let pr = tdiv64(r * 9, 5);
        let off = tdiv64(pr, 10);
        let mid_pr = tdiv64(pr * 9, 10);
        let mid_dip = tdiv64(pr * 2, 5);
        proof {
            crate::geom::lemma_tdiv_bounds(r * 9, 5);
            crate::geom::lemma_tdiv_bounds(pr as int, 10);
            crate::geom::lemma_tdiv_bounds(pr * 9, 10);
            crate::geom::lemma_tdiv_bounds(pr * 2, 5);
            assert(0 <= pr <= 2 * r) by (nonlinear_arith)
                requires
                    r >= 1,
                    5 * (pr as int) <= r * 9,
                    0 <= pr,
            ;
            assert(0 <= mid_pr <= pr && 0 <= mid_dip <= pr);
        }
        pockets.push(Pocket::new(off, off, pr));
        pockets.push(Pocket::new(table_width - off, off, pr));
        pockets.push(Pocket::new(off, table_height - off, pr));
        pockets.push(Pocket::new(table_width - off, table_height - off, pr));
        pockets.push(Pocket::new(tdiv64(table_width, 2), off - mid_dip, mid_pr));
        pockets.push(Pocket::new(tdiv64(table_width, 2), table_height - off + mid_dip, mid_pr));
        let g = Game {
            table_width,
            table_height,
            ball_radius: r,
            pocket_radius: pr,
            balls,
            pockets,
            cue_ball_idx: 0,
            game_state: GameState::Aiming,
            message: Message::MatchStart(PlayerId::Player1),
            current_player: PlayerId::Player1,
            player1_group: PlayerGroup::Undecided,
            player2_group: PlayerGroup::Undecided,
            potted_ball_numbers_this_turn: Vec::new(),
            is_break_shot: true,
            player1_pocketed_balls: Vec::new(),
            player2_pocketed_balls: Vec::new(),
        };
        proof {
            assert(g.balls@ =~= balls_spec(table_width, table_height, r));
            assert(g.pockets@ =~= pockets_spec(table_width, table_height, r));
            assert forall|i: int| 0 <= i < 16 implies g.balls@[i].vel == (Vec2i {
                x: 0i64,
                y: 0i64,
            }) by {}
            lemma_total_energy_zero(g.balls@);
            crate::geom::lemma_tdiv_bounds(table_width as int, 4);
            crate::geom::lemma_tdiv_bounds(table_height as int, 2);
            assert forall|i: int| 0 <= i < 16 implies wf_ball(
                #[trigger] g.balls@[i],
                table_width,
                table_height,
            ) by {
                if i > 0 {
                    let k = i - 1;
                    assert(g.balls@[i] == rack_ball(k, table_width, table_height, r));
                    lemma_rack_ball_bounds(k, table_width, table_height, r);
                }
            }
        }
        g
    }

    /// Throw away the current match and rack a fresh one on the same
    /// table: same dimensions, full triangle, player 1 to break.
    pub fn reset_match(&mut self)
        requires
            1 <= old(self).ball_radius <= RADIUS_LIMIT,
            32 * old(self).ball_radius <= old(self).table_width <= DIM_LIMIT,
            16 * old(self).ball_radius <= old(self).table_height <= DIM_LIMIT,
        ensures
            final(self).wf(),
            final(self).is_fresh(
                old(self).table_width,
                old(self).table_height,
                old(self).ball_radius,
            ),
    {
        let g = Game::new(self.table_width, self.table_height, self.ball_radius);
        *self = g;
    }

    /// Strike the cue ball. Accepted only when aiming with a live cue
    /// ball and enough power; otherwise the state is left unchanged
    /// (save for a low-power notice) and `false` comes back.
    pub fn begin_shot(&mut self, vx: i64, vy: i64) -> (accepted: bool)
        requires
            old(self).wf(),
            -0x2_0000 <= vx <= 0x2_0000,
            -0x2_0000 <= vy <= 0x2_0000,
            vx * vx + vy * vy <= ENERGY_LIMIT,
        ensures
            final(self).wf(),
            accepted == (old(self).game_state == GameState::Aiming && !old(self).balls@[old(
                self,
            ).cue_ball_idx as int].in_pocket && vx * vx + vy * vy >= MIN_SHOT_SPEED_SQ),
            accepted ==> *final(self) == (Game {
                balls: final(self).balls,
                game_state: GameState::Shooting,
                message: Message::BallsInMotion,
                potted_ball_numbers_this_turn: final(self).potted_ball_numbers_this_turn,
                ..*old(self)
            }),
            accepted ==> final(self).balls@ == old(self).balls@.update(
                old(self).cue_ball_idx as int,
                (Ball {
                    vel: Vec2i {
                        x: tdiv(vx * 19, 20) as i64,
                        y: tdiv(vy * 19, 20) as i64,
                    },
                    ..old(self).balls@[old(self).cue_ball_idx as int]
                }),
            ),
            accepted ==> final(self).potted_ball_numbers_this_turn@ == Seq::<u8>::empty(),
            !accepted ==> *final(self) == (Game { message: final(self).message, ..*old(self) }),
            !accepted ==> final(self).message == (if old(self).game_state == GameState::Aiming
                && !old(self).balls@[old(self).cue_ball_idx as int].in_pocket {
                Message::AimLowPower(old(self).current_player)
            } else {
                old(self).message
            }),
    {
        if !matches!(self.game_state, GameState::Aiming) {
            return false;
        }
        let cue_idx = self.cue_ball_idx;
        if self.balls[cue_idx].in_pocket {
            return false;
        }
        assert(0 <= vx * vx <= 0x4_0000_0000 && 0 <= vy * vy <= 0x4_0000_0000) by (nonlinear_arith)
            requires
                -0x2_0000 <= vx <= 0x2_0000,
                -0x2_0000 <= vy <= 0x2_0000,
        ;
        if vx * vx + vy * vy < MIN_SHOT_SPEED_SQ {
            self.message = Message::AimLowPower(self.current_player);
            return false;
        }
        proof {
            crate::ball::lemma_scaled_shot(vx as int, vy as int);
            lemma_total_energy_zero(self.balls@);
            lemma_total_energy_update(
                self.balls@,
                cue_idx as int,
                (Ball {
                    vel: Vec2i { x: tdiv(vx * 19, 20) as i64, y: tdiv(vy * 19, 20) as i64 },
                    ..self.balls@[cue_idx as int]
                }),
            );
        }
        let mut cue = self.balls[cue_idx];
        cue.vel.x = tdiv64(vx * 19, 20);
        cue.vel.y = tdiv64(vy * 19, 20);
        self.balls.set(cue_idx, cue);
        self.game_state = GameState::Shooting;
        self.message = Message::BallsInMotion;
        self.potted_ball_numbers_this_turn = Vec::new();
        proof {
            crate::ball::lemma_energy_nonneg(old(self).balls@[cue_idx as int]);
        }
        true
    }

    /// Put the cue ball back on the table after a scratch. Valid only
    /// in the reposition phase, inside the baulk area (the leftmost
    /// quarter of the table), and away from every live ball.
    pub fn reposition_cue_ball(&mut self, x: i64, y: i64) -> (accepted: bool)
        requires
            old(self).wf(),
        ensures
            final(self).wf(),
            accepted == (old(self).game_state == GameState::RepositionCueBall && 0 < x < tdiv(
                old(self).table_width as int,
                4,
            ) && 0 < y < old(self).table_height && (forall|i: int|
                0 <= i < 16 && i != old(self).cue_ball_idx && !(#[trigger] old(
                    self,
                ).balls@[i]).in_pocket ==> !too_close(old(self).balls@[i], x, y, old(
                    self,
                ).ball_radius))),
            accepted ==> *final(self) == (Game {
                balls: final(self).balls,
                game_state: GameState::Aiming,
                message: Message::Aim(old(self).current_player),
                ..*old(self)
            }),
            accepted ==> final(self).balls@ == old(self).balls@.update(
                old(self).cue_ball_idx as int,
                (Ball {
                    pos: Vec2i { x, y },
                    vel: Vec2i { x: 0i64, y: 0i64 },
                    in_pocket: false,
                    ..old(self).balls@[old(self).cue_ball_idx as int]
                }),
            ),
            !accepted ==> *final(self) == (Game { message: final(self).message, ..*old(self) }),
            !accepted ==> final(self).message == (if old(self).game_state
                != GameState::RepositionCueBall {
                old(self).message
            } else if !(0 < x < tdiv(old(self).table_width as int, 4) && 0 < y < old(
                self,
            ).table_height) {
                Message::RepositionOutsideArea
            } else {
                Message::InvalidReposition
            }),
    {
        if !matches!(self.game_state, GameState::RepositionCueBall) {
            return false;
        }
        let area_w = tdiv64(self.table_width, 4);
        if !(0 < x && x < area_w && 0 < y && y < self.table_height) {
            self.message = Message::RepositionOutsideArea;
            return false;
        }
        proof {
            crate::geom::lemma_tdiv_bounds(self.table_width as int, 4);
        }
        let cue_idx = self.cue_ball_idx;
        let n = self.balls.len();
        let mut i: usize = 0;
        while i < n
            invariant
                old(self).wf(),
                *self == *old(self),
                n == 16,
                cue_idx == old(self).cue_ball_idx,
                0 <= i <= 16,
                old(self).game_state == GameState::RepositionCueBall,
                0 < x < tdiv(old(self).table_width as int, 4),
                0 < y < old(self).table_height,
                forall|j: int|
                    0 <= j < i && j != cue_idx && !(#[trigger] self.balls@[j]).in_pocket
                        ==> !too_close(self.balls@[j], x, y, self.ball_radius),
                -POS_SLOP <= x <= DIM_LIMIT + POS_SLOP,
                -POS_SLOP <= y <= DIM_LIMIT + POS_SLOP,
            decreases n - i,
        {
            if i != cue_idx && !self.balls[i].in_pocket {
                let b = self.balls[i];
                let ddx = b.pos.x - x;
                let ddy = b.pos.y - y;
                let lim = 2 * self.ball_radius;
                assert(0 <= ddx * ddx <= 0x400_0000_0000_0000 && 0 <= ddy * ddy
                    <= 0x400_0000_0000_0000 && 0 <= lim * lim <= 0x4_0000_0000)
                    by (nonlinear_arith)
                    requires
                        -0x1000_0000 <= ddx <= 0x1000_0000,
                        -0x1000_0000 <= ddy <= 0x1000_0000,
                        0 <= lim <= 0x2_0000,
                ;
                if ddx * ddx + ddy * ddy < lim * lim {
                    self.message = Message::InvalidReposition;
                    return false;
                }
            }
            i = i + 1;
        }
        proof {
            lemma_total_energy_zero(self.balls@);
            lemma_total_energy_update(
                self.balls@,
                cue_idx as int,
                (Ball {
                    pos: Vec2i { x, y },
                    vel: Vec2i { x: 0i64, y: 0i64 },
                    in_pocket: false,
                    ..self.balls@[cue_idx as int]
                }),
            );
            crate::ball::lemma_energy_nonneg(self.balls@[cue_idx as int]);
        }
        let mut cue = self.balls[cue_idx];
        cue.pos.x = x;
        cue.pos.y = y;
        cue.vel.x = 0;
        cue.vel.y = 0;
        cue.in_pocket = false;
        self.balls.set(cue_idx, cue);
        self.game_state = GameState::Aiming;
        self.message = Message::Aim(self.current_player);
        proof {
            lemma_total_energy_zero(self.balls@);
        }
        true
    }
}

/// A candidate cue-ball spot overlaps the given ball: their centers
/// are within one ball diameter of each other.
pub open spec fn too_close(b: Ball, x: i64, y: i64, r: i64) -> bool {
    let ddx = b.pos.x - x;
    let ddy = b.pos.y - y;
    ddx * ddx + ddy * ddy < (2 * r) * (2 * r)
}

/// Reset determinism: two fresh racks on tables of equal dimensions
/// are identical in every observable part, so resetting a match twice
/// in a row yields the same state as resetting it once.
pub proof fn lemma_reset_match_idempotent(a: Game, b: Game, width: i64, height: i64, r: i64)
    requires
        a.is_fresh(width, height, r),
        b.is_fresh(width, height, r),
    ensures
        a.balls@ == b.balls@,
        a.pockets@ == b.pockets@,
        a.game_state == b.game_state,
        a.message == b.message,
        a.current_player == b.current_player,
        a.player1_group == b.player1_group,
        a.player2_group == b.player2_group,
        a.potted_ball_numbers_this_turn@ == b.potted_ball_numbers_this_turn@,
        a.player1_pocketed_balls@ == b.player1_pocketed_balls@,
        a.player2_pocketed_balls@ == b.player2_pocketed_balls@,
        a.is_break_shot == b.is_break_shot,
{
}

/// Every rack slot produces a well-formed ball on a big-enough table.
proof fn lemma_rack_ball_bounds(k: int, width: i64, height: i64, r: i64)
    requires
        0 <= k < 15,
        1 <= r <= RADIUS_LIMIT,
        32 * r <= width <= DIM_LIMIT,
        16 * r <= height <= DIM_LIMIT,
    ensures
        wf_ball(rack_ball(k, width, height, r), width, height),
        -POS_SLOP <= rack_ball(k, width, height, r).pos.x as int <= width + POS_SLOP,
{
    let row = rack_row(k);
    let col = rack_col(k);
    crate::geom::lemma_tdiv_bounds(width * 7, 10);
    crate::geom::lemma_tdiv_bounds(height as int, 2);
    crate::geom::lemma_tdiv_bounds(r * 1732050, 1000000);
    let step = rack_step(r);
    assert(r * 1732050 <= 1000000 * (2 * r)) by (nonlinear_arith)
        requires
            r >= 1,
    ;
    assert(step <= 2 * r) by (nonlinear_arith)
        requires
            1000000 * step <= r * 1732050,
            r * 1732050 <= 1000000 * (2 * r),
    ;
    assert(0 <= width * 7 && 10 * tdiv(width * 7, 10) <= width * 7);
    assert(tdiv(width * 7, 10) <= width);
    assert(0 <= row <= 4 && 0 <= col <= 4);
    assert(0 <= row * step <= 8 * r && 0 <= col * (2 * r) <= 8 * r && 0 <= row * r <= 4 * r)
        by (nonlinear_arith)
        requires
            0 <= row <= 4,
            0 <= col <= 4,
            0 <= step <= 2 * r,
            r >= 1,
    ;
}

/// Private exec mirror of the rack slot tables.
fn rack_slot(k: usize) -> (rc: (usize, usize))
    requires
        k < 15,
    ensures
        rc.0 == rack_row(k as int),
        rc.1 == rack_col(k as int),
        rc.0 <= 4,
        rc.1 <= 4,
{
    if k < 1 {
        (0, k)
    } else if k < 3 {
        (1, k - 1)
    } else if k < 6 {
        (2, k - 3)
    } else if k < 10 {
        (3, k - 6)
    } else {
        (4, k - 10)
    }
}

fn rack_number_at(k: usize) -> (n: u8)
    requires
        k < 15,
    ensures
        n == rack_number(k as int),
        1 <= n <= 15,
{
    if k == 0 {
        1
    } else if k == 1 {
        9
    } else if k == 2 {
        2
    } else if k == 3 {
        11
    } else if k == 4 {
        8
    } else if k == 5 {
        3
    } else if k == 6 {
        4
    } else if k == 7 {
        13
    } else if k == 8 {
        10
    } else if k == 9 {
        15
    } else if k == 10 {
        5
    } else if k == 11 {
        7
    } else if k == 12 {
        14
    } else if k == 13 {
        6
    } else {
        12
    }
}

} // verus!
