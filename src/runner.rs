//! Driving two-player games from start to finish with two strategies.

use vstd::prelude::*;
use crate::gamestate::{Gamestate, State, seq_sum};
use crate::players::Player;

verus! {

/// Play the rest of the current round, each player picking on its turn, then
/// end the round. Returns whether the game goes on.
pub fn play_round<A: Player, B: Player>(gs: &mut Gamestate, p0: &mut A, p1: &mut B) -> (more: bool)
    requires
        old(gs).wf(),
        old(gs).players() == 2,
        old(gs).state_view() == State::RoundActive,
    ensures
        final(gs).wf(),
        final(gs).players() == 2,
        more == (final(gs).state_view() == State::RoundActive),
        !more ==> final(gs).state_view() == State::GameEnd,
        more ==> final(gs).round_view() == old(gs).round_view() + 1,
{
    proof {
        crate::gamestate::lemma_slot_sum_nonneg(*gs);
    }
    loop
        invariant
            gs.wf(),
            gs.players() == 2,
            gs.state_view() == State::RoundActive,
            gs.round_view() == old(gs).round_view(),
            seq_sum(gs.slot_counts()) >= 0,
        decreases seq_sum(gs.slot_counts()),
    {
        let moves = gs.get_moves();
        let m = if gs.current_player() == 0 {
            p0.pick_move(gs, moves)
        } else {
            p1.pick_move(gs, moves)
        };
        if gs.play_move(m) == State::RoundEnd {
            return gs.end_round() != State::GameEnd;
        }
        proof {
            crate::gamestate::lemma_slot_sum_nonneg(*gs);
        }
    }
}

/// Play a whole two-player game from the deal for `seed`, `first_player`
/// moving first. The game always ends, within the round limit.
pub fn play_game<A: Player, B: Player>(seed: u64, first_player: u8, p0: &mut A, p1: &mut B) -> (gs: Gamestate)
    requires
        first_player < 2,
    ensures
        gs.wf(),
        gs.players() == 2,
        gs.state_view() == State::GameEnd,
        1 <= gs.round_view() <= 10,
{
    let mut gs = Gamestate::new_2_player_with_seed(seed, first_player);
    loop
        invariant
            gs.wf(),
            gs.players() == 2,
            gs.state_view() == State::RoundActive,
        decreases 10 - gs.round_view(),
    {
        if !play_round(&mut gs, p0, p1) {
            return gs;
        }
    }
}

} // verus!
