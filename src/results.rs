//! Outcomes of head-to-head games between two players.

use vstd::prelude::*;

verus! {

/// Winner of one two-player game.
#[derive(Debug, Clone, Copy, PartialEq, Eq, Structural)]
pub enum Winner {
    Player0,
    Player1,
    Draw,
}

impl Winner {
    /// The player with the higher score, or a draw on equal scores.
    pub fn new(score: &[u8; 2]) -> (w: Self)
        ensures
            w == if score[0] < score[1] {
                Winner::Player1
            } else if score[0] > score[1] {
                Winner::Player0
            } else {
                Winner::Draw
            },
    {
        if score[0] < score[1] {
            Winner::Player1
        } else if score[0] > score[1] {
            Winner::Player0
        } else {
            Winner::Draw
        }
    }
}

/// How many games each player won, and how many were drawn.
#[derive(Debug, Clone, Copy, Default, PartialEq, Eq, Structural)]
pub struct WinnerCount {
    pub player0: u32,
    pub player1: u32,
    pub draw: u32,
}

impl WinnerCount {
    /// The same tally seen from the other player's side.
    pub fn invert(&self) -> (r: Self)
        ensures
            r == (WinnerCount { player0: self.player1, player1: self.player0, draw: self.draw }),
    {
        Self { player0: self.player1, player1: self.player0, draw: self.draw }
    }

    /// Count one more game with the given winner.
    pub fn record(&mut self, winner: Winner)
        requires
            old(self).player0 < u32::MAX,
            old(self).player1 < u32::MAX,
            old(self).draw < u32::MAX,
        ensures
            *final(self) == match winner {
                Winner::Player0 => WinnerCount { player0: (old(self).player0 + 1) as u32, ..*old(self) },
                Winner::Player1 => WinnerCount { player1: (old(self).player1 + 1) as u32, ..*old(self) },
                Winner::Draw => WinnerCount { draw: (old(self).draw + 1) as u32, ..*old(self) },
            },
    {
        match winner {
            Winner::Player0 => self.player0 = self.player0 + 1,
            Winner::Player1 => self.player1 = self.player1 + 1,
            Winner::Draw => self.draw = self.draw + 1,
        }
    }
}

} // verus!
