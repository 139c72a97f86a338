//! Move-choosing strategies built on the engine's public interface.

use vstd::prelude::*;
use crate::gamestate::{Destination, Gamestate, Move, State};

verus! {

/// A strategy: picks one of the legal moves it is given.
pub trait Player {
    fn pick_move(&mut self, gamestate: &Gamestate, moves: Vec<Move>) -> (m: Move)
        requires
            gamestate.wf(),
            gamestate.state_view() == State::RoundActive,
            moves@.len() > 0,
            forall|k: int| 0 <= k < moves@.len() ==> gamestate.legal(#[trigger] moves@[k]),
        ensures
            moves@.contains(m),
    ;
}

/// Picks a move uniformly at random.
#[derive(Debug)]
pub struct RandomPlayer(rand::rngs::SmallRng);

impl RandomPlayer {
    pub fn new() -> Self {
        RandomPlayer(crate::rng::entropy_rng())
    }
}

impl Player for RandomPlayer {
    fn pick_move(&mut self, _gamestate: &Gamestate, moves: Vec<Move>) -> (m: Move) {
        let i = crate::rng::random_index(&mut self.0, moves.len());
        moves[i]
    }
}

/// Picks the first move.
#[derive(Debug, Clone, Copy, Default)]
pub struct FirstMovePlayer;

impl Player for FirstMovePlayer {
    fn pick_move(&mut self, _gamestate: &Gamestate, moves: Vec<Move>) -> (m: Move) {
        moves[0]
    }
}

/// Rank of a move for [`MoveRankPlayer`]: 2 when it fills its line, 1 for
/// another line move, 0 for a floor move.
pub open spec fn line_score(m: Move) -> int {
    match m.destination {
        Destination::Row(_) => if m.fills_row_spec() {
            2
        } else {
            1
        },
        Destination::Floor => 0,
    }
}

/// Picks moves based on a simple ranking: a move that fills its line beats
/// any other line move, which beats a floor move.
#[derive(Debug, Clone, Copy, Default)]
pub struct MoveRankPlayer;

impl MoveRankPlayer {
    pub fn new() -> Self {
        MoveRankPlayer
    }

    /// The better of two moves: a line move beats a floor move, a move that
    /// fills its line beats one that does not; on a tie between line moves
    /// the first wins, between floor moves the second.
    pub fn compare_move(&self, a: Move, b: Move) -> (r: Move)
        ensures
            r == if line_score(a) > line_score(b) {
                a
            } else if line_score(a) < line_score(b) {
                b
            } else if a.destination is Floor {
                b
            } else {
                a
            },
    {
        match (a.destination, b.destination) {
            (Destination::Row(_), Destination::Floor) => a,
            (Destination::Floor, Destination::Row(_)) => b,
            (Destination::Floor, Destination::Floor) => b,
            (Destination::Row(_), Destination::Row(_)) => {
                match (a.fills_row(), b.fills_row()) {
                    (true, false) => a,
                    (false, true) => b,
                    (true, true) => a,
                    (false, false) => a,
                }
            },
        }
    }
}

impl Player for MoveRankPlayer {
    fn pick_move(&mut self, _gamestate: &Gamestate, moves: Vec<Move>) -> (m: Move) {
        let mut best = moves[0];
        let mut i: usize = 1;
        while i < moves.len()
            invariant
                1 <= i <= moves@.len(),
                moves@.contains(best),
            decreases moves@.len() - i,
        {
            best = self.compare_move(best, moves[i]);
            i = i + 1;
        }
        best
    }
}

/// Picks the move with the largest change of predicted score, then one that
/// takes the first-player token, then a line move over a floor move.
#[derive(Debug, Clone, Copy, Default)]
pub struct MoveRankPlayer2;

impl MoveRankPlayer2 {
    pub fn new() -> Self {
        MoveRankPlayer2
    }

    /// The better of two scored moves `(score change, takes token, move)`.
    pub fn compare_move(&self, a: (i16, bool, Move), b: (i16, bool, Move)) -> (r: (i16, bool, Move))
        ensures
            r == if a.0 > b.0 {
                a
            } else if a.0 < b.0 {
                b
            } else if a.1 && !b.1 {
                a
            } else if !a.1 && b.1 {
                b
            } else if a.2.destination is Floor && b.2.destination is Row {
                b
            } else {
                a
            },
    {
        if a.0 > b.0 {
            return a;
        } else if a.0 < b.0 {
            return b;
        }
        if a.1 && !b.1 {
            return a;
        } else if !a.1 && b.1 {
            return b;
        }
        match (a.2.destination, b.2.destination) {
            (Destination::Row(_), Destination::Floor) => a,
            (Destination::Floor, Destination::Row(_)) => b,
            _ => a,
        }
    }
}

impl Player for MoveRankPlayer2 {
    fn pick_move(&mut self, gs: &Gamestate, moves: Vec<Move>) -> (m: Move) {
        let first = moves[0];
        let mut best = (gs.predict_score(first).1, gs.takes_fp(&first), first);
        let mut i: usize = 1;
        while i < moves.len()
            invariant
                1 <= i <= moves@.len(),
                moves@.contains(best.2),
                gs.wf(),
                gs.state_view() == State::RoundActive,
                forall|k: int| 0 <= k < moves@.len() ==> gs.legal(#[trigger] moves@[k]),
            decreases moves@.len() - i,
        {
            let m = moves[i];
            let scored = (gs.predict_score(m).1, gs.takes_fp(&m), m);
            best = self.compare_move(best, scored);
            i = i + 1;
        }
        best.2
    }
}

/// Decode a flat move index into (source slot, colour, destination), with
/// six destinations per colour and five colours per slot.
pub fn index_to_move(index: usize) -> (r: (usize, usize, usize))
    ensures
        r.0 == index / 30,
        r.1 == (index % 30) / 6,
        r.2 == index % 6,
        index == 30 * r.0 + 6 * r.1 + r.2,
        r.1 < 5,
        r.2 < 6,
{
    let source = index / 30;
    let tile = (index % 30) / 6;
    let dest = index % 6;
    (source, tile, dest)
}

} // verus!
