use azul_tiles_rs::gamestate::{Destination, Move, Source};
use azul_tiles_rs::players::{index_to_move, MoveRankPlayer, MoveRankPlayer2};
use azul_tiles_rs::results::{Winner, WinnerCount};
use azul_tiles_rs::tiles::Tile;
use azul_tiles_rs::wall::RowIndex;

#[test]
fn move_from_index() {
    for i in 0..180 {
        let (s, t, d) = index_to_move(i);
        println!("{} -> ({}, {}, {})", i, s, t, d);
    }
}

#[test]
fn index_decoding_values() {
    assert_eq!(index_to_move(0), (0, 0, 0));
    assert_eq!(index_to_move(37), (1, 1, 1));
    assert_eq!(index_to_move(179), (5, 4, 5));
}

#[test]
fn rank_prefers_filling_line_moves() {
    let p = MoveRankPlayer::new();
    let fill = Move::new(Source(1), Tile::Red, 1, 1, 1, Destination::Row(RowIndex::One));
    let partial = Move::new(Source(1), Tile::Red, 1, 1, 1, Destination::Row(RowIndex::Two));
    let floor = Move::new_to_floor(Source(1), Tile::Red, 1);
    assert_eq!(p.compare_move(partial, fill), fill);
    assert_eq!(p.compare_move(floor, partial), partial);
    assert_eq!(p.compare_move(partial, floor), partial);
    let floor2 = Move::new_to_floor(Source(2), Tile::Blue, 2);
    assert_eq!(p.compare_move(floor, floor2), floor2);
}

#[test]
fn rank2_prefers_score_then_token_then_line() {
    let p = MoveRankPlayer2::new();
    let row = Move::new(Source(1), Tile::Red, 1, 1, 1, Destination::Row(RowIndex::Two));
    let floor = Move::new_to_floor(Source(1), Tile::Red, 1);
    assert_eq!(p.compare_move((1, false, floor), (0, true, row)).2, floor);
    assert_eq!(p.compare_move((0, false, row), (0, true, floor)).2, floor);
    assert_eq!(p.compare_move((0, false, floor), (0, false, row)).2, row);
}

#[test]
fn winner_and_tally() {
    assert_eq!(Winner::new(&[3, 5]), Winner::Player1);
    assert_eq!(Winner::new(&[9, 5]), Winner::Player0);
    assert_eq!(Winner::new(&[5, 5]), Winner::Draw);
    let mut c = WinnerCount::default();
    c.record(Winner::Player0);
    c.record(Winner::Player0);
    c.record(Winner::Draw);
    let inv = c.invert();
    assert_eq!(inv, WinnerCount { player0: 0, player1: 2, draw: 1 });
}
