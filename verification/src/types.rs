//! The discrete vocabulary of a match: players, ball groups, the game
//! phase, and the user-facing messages the rule engine produces.
use vstd::prelude::*;

verus! {

#[derive(Clone, Copy, Debug, PartialEq, Eq, Structural)]
pub enum PlayerId {
    Player1,
    Player2,
}

impl PlayerId {
    /// The opponent of this player.
    pub fn next(&self) -> (r: PlayerId)
        ensures
            r == self.spec_next(),
    {
        match self {
            PlayerId::Player1 => PlayerId::Player2,
            PlayerId::Player2 => PlayerId::Player1,
        }
    }

    pub open spec fn spec_next(self) -> PlayerId {
        match self {
            PlayerId::Player1 => PlayerId::Player2,
            PlayerId::Player2 => PlayerId::Player1,
        }
    }
}

#[derive(Clone, Copy, Debug, PartialEq, Eq, Structural)]
pub enum PlayerGroup {
    Solids,
    Stripes,
    Undecided,
    EightBall,
}

impl PlayerGroup {
    /// The complementary group assignment: solids for stripes and back.
    pub open spec fn spec_opposite(self) -> PlayerGroup {
        match self {
            PlayerGroup::Solids => PlayerGroup::Stripes,
            PlayerGroup::Stripes => PlayerGroup::Solids,
            g => g,
        }
    }

    pub fn opposite(&self) -> (r: PlayerGroup)
        ensures
            r == self.spec_opposite(),
    {
        match self {
            PlayerGroup::Solids => PlayerGroup::Stripes,
            PlayerGroup::Stripes => PlayerGroup::Solids,
            PlayerGroup::Undecided => PlayerGroup::Undecided,
            PlayerGroup::EightBall => PlayerGroup::EightBall,
        }
    }
}

#[derive(Clone, Copy, Debug, PartialEq, Eq, Structural)]
pub enum GameState {
    Initializing,
    Aiming,
    Shooting,
    BallsMoving,
    RepositionCueBall,
    GameOver,
}

/// What the table should tell the players after the last event.
/// The presentation layer turns each variant into display text.
#[derive(Clone, Copy, Debug, PartialEq, Eq, Structural)]
pub enum Message {
    /// A fresh rack awaits the named player's break shot.
    MatchStart(PlayerId),
    /// The named player is aiming.
    Aim(PlayerId),
    /// The named player's strike was below the minimum shot speed.
    AimLowPower(PlayerId),
    /// A shot is resolving.
    BallsInMotion,
    /// The named player won the match.
    Won(PlayerId),
    /// The named player potted the 8 together with a scratch and lost.
    LostEightWithScratch(PlayerId),
    /// The named player potted the 8 while the table was open and lost.
    LostEightOpenTable(PlayerId),
    /// The named player potted the 8 with own-group balls left and lost.
    LostEightPremature(PlayerId),
    /// The cue ball was pocketed; the named player repositions it.
    ScratchReposition(PlayerId),
    /// The named player was just assigned the given group and shoots again.
    GroupAssigned(PlayerId, PlayerGroup),
    /// On an open table the named player potted a ball and shoots again.
    OpenTableAgain(PlayerId),
    /// The named player potted an own-group ball and shoots again.
    GoodShot(PlayerId),
    /// The named player only needs the 8 ball to win.
    PotEightToWin(PlayerId),
    /// The chosen cue-ball spot overlaps another ball.
    InvalidReposition,
    /// The chosen cue-ball spot lies outside the baulk area.
    RepositionOutsideArea,
}

} // verus!
