use azul_tiles_rs::gamestate::{Destination, Gamestate, Move, Source, State};
use azul_tiles_rs::players::{FirstMovePlayer, MoveRankPlayer, MoveRankPlayer2, Player};
use azul_tiles_rs::runner::{play_game, play_round};
use azul_tiles_rs::tiles::Tile;
use azul_tiles_rs::wall::RowIndex;

#[test]
fn gamestate() {
    let mut g = Gamestate::new_2_player();
    // sanity checks
    assert_eq!(g.boards().len(), 2);
    assert_eq!(g.factories().len(), 6);
    assert!(g.first_player_tile());
    assert_eq!(g.round(), 1);
    assert_eq!(g.tilebag().total(), 80);
    assert_eq!(g.factories()[0], None);
    for f in &g.factories()[1..] {
        assert_eq!(f.as_ref().unwrap().total(), 4);
    }
    assert_eq!(g.tile_count(), 100);
    assert_eq!(g.fp_count(), 1);

    let moves = g.get_moves();
    assert_eq!(g.play_move(moves[0]), State::RoundActive);
    assert_eq!(g.current_player(), 1);
    assert_eq!(g.tile_count(), 100);
    assert_eq!(g.fp_count(), 1);

    // Play a full game
    loop {
        loop {
            let moves = g.get_moves();
            match g.play_move(moves[0]) {
                State::RoundActive => (),
                State::RoundEnd => break,
                State::GameEnd => panic!("Game should not end"),
            }
            assert_eq!(g.tile_count(), 100);
            assert_eq!(g.fp_count(), 1);
        }
        assert_eq!(g.tile_count(), 100);
        assert_eq!(g.fp_count(), 1);
        if g.end_round() == State::GameEnd {
            break;
        }
        assert_eq!(g.tile_count(), 100);
        assert_eq!(g.fp_count(), 1);
    }
}

#[test]
fn dealing_for_more_players() {
    let g3 = Gamestate::new_3_player();
    assert_eq!(g3.boards().len(), 3);
    assert_eq!(g3.factories().len(), 8);
    assert_eq!(g3.tilebag().total(), 100 - 4 * 7);
    let g4 = Gamestate::new_4_player();
    assert_eq!(g4.factories().len(), 10);
    assert_eq!(g4.tilebag().total(), 100 - 4 * 9);
    assert_eq!(g4.tile_count(), 100);
    assert_eq!(g4.fp_count(), 1);
}

#[test]
fn same_seed_same_deal() {
    let a = Gamestate::new_2_player_with_seed(42, 1);
    let b = Gamestate::new_2_player_with_seed(42, 1);
    assert_eq!(a.factories(), b.factories());
    assert_eq!(a.tilebag(), b.tilebag());
    assert_eq!(a.current_player(), 1);
}

#[test]
fn every_move_is_legal_shape() {
    let g = Gamestate::new_2_player_with_seed(3, 0);
    let moves = g.get_moves();
    assert!(!moves.is_empty());
    for m in &moves {
        let f = g.factories()[m.source.0 as usize].unwrap();
        assert_eq!(f.tile_count(m.tile), m.count);
        assert!(m.count > 0);
        match m.destination {
            Destination::Row(r) => {
                assert!(m.play_count <= m.count);
                assert!(m.row_count <= r.capacity());
            }
            Destination::Floor => {
                assert_eq!(m.play_count, 0);
                assert_eq!(m.row_count, 0);
            }
        }
    }
    // every display colour has a floor move
    let floor_moves = moves.iter().filter(|m| m.destination == Destination::Floor).count();
    let colours: usize = g.factories()[1..]
        .iter()
        .map(|f| {
            let f = f.unwrap();
            [Tile::Blue, Tile::Yellow, Tile::Red, Tile::Black, Tile::White]
                .iter()
                .filter(|t| f.tile_count(**t) > 0)
                .count()
        })
        .sum();
    assert_eq!(floor_moves, colours);
}

#[test]
fn predict_score_does_not_change_the_game() {
    let g = Gamestate::new_2_player_with_seed(11, 0);
    let before = g.clone();
    for m in g.get_moves() {
        let (score, delta) = g.predict_score(m);
        assert_eq!(delta, score as i16 - g.boards()[0].predicted_score as i16);
    }
    assert_eq!(g.boards(), before.boards());
    assert_eq!(g.factories(), before.factories());
    assert_eq!(g.tilebag(), before.tilebag());
}

#[test]
fn taking_from_centre_takes_token() {
    let mut g = Gamestate::new_2_player_with_seed(5, 0);
    let m = g.get_moves()[0];
    assert!(!g.takes_fp(&m));
    g.play_move(m);
    let centre_move = g.get_moves().into_iter().find(|m| m.source == Source(0)).unwrap();
    assert!(g.takes_fp(&centre_move));
    g.play_move(centre_move);
    assert!(!g.first_player_tile());
    assert!(g.boards()[1].first_player_tile);
    assert_eq!(g.fp_count(), 1);
}

#[test]
fn move_helpers() {
    let perfect = Move::new(Source(1), Tile::Red, 2, 2, 2, Destination::Row(RowIndex::Two));
    assert!(perfect.fills_row());
    assert!(perfect.no_floor_tiles());
    assert!(perfect.perfect_move());
    assert_eq!(perfect.floor_tiles(), 0);
    assert_eq!(perfect.row_capacity(), 2);
    let spill = Move::new(Source(0), Tile::Red, 4, 1, 3, Destination::Row(RowIndex::Three));
    assert!(spill.fills_row());
    assert!(!spill.no_floor_tiles());
    assert_eq!(spill.floor_tiles(), 3);
    let floor = Move::new_to_floor(Source(2), Tile::Blue, 3);
    assert!(!floor.fills_row());
    assert_eq!(floor.floor_tiles(), 3);
    assert_eq!(floor.row_capacity(), 0);
    assert!(Source(0).is_centre());
}

fn play_out<A: Player, B: Player>(seed: u64, a: &mut A, b: &mut B) -> Gamestate {
    let mut g = Gamestate::new_2_player_with_seed(seed, 0);
    loop {
        let moves = g.get_moves();
        let m = if g.current_player() == 0 { a.pick_move(&g, moves) } else { b.pick_move(&g, moves) };
        if g.play_move(m) == State::RoundEnd && g.end_round() == State::GameEnd {
            break;
        }
    }
    g
}

#[test]
fn strategies_play_full_games() {
    for seed in 0..5 {
        let g = play_out(seed, &mut FirstMovePlayer, &mut MoveRankPlayer::new());
        assert_eq!(g.state(), State::GameEnd);
        assert!(g.round() <= 10);
        assert_eq!(g.tile_count(), 100);
        let g = play_out(seed, &mut MoveRankPlayer2::new(), &mut MoveRankPlayer::new());
        assert_eq!(g.state(), State::GameEnd);
        assert_eq!(g.scores().len(), 2);
    }
}

#[test]
fn runner_plays_to_the_end() {
    for seed in 0..5 {
        let g = play_game(seed, 1, &mut MoveRankPlayer::new(), &mut FirstMovePlayer);
        assert_eq!(g.state(), State::GameEnd);
        assert!(g.round() >= 1 && g.round() <= 10);
        assert_eq!(g.tile_count(), 100);
        assert_eq!(g.fp_count(), 1);
    }
    let mut g = Gamestate::new_2_player_with_seed(9, 0);
    assert!(play_round(&mut g, &mut FirstMovePlayer, &mut FirstMovePlayer));
    assert_eq!(g.round(), 2);
    assert_eq!(g.state(), State::RoundActive);
}
