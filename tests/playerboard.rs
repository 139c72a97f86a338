use azul_tiles_rs::gamestate::Destination;
use azul_tiles_rs::playerboard::{floor_score, PlayerBoard};
use azul_tiles_rs::tiles::{Tile, TileGroup};
use azul_tiles_rs::wall::RowIndex;

#[test]
fn floor_penalty_table() {
    let expected = [0u8, 1, 2, 4, 6, 8, 11, 14, 14, 14];
    for (n, want) in expected.iter().enumerate() {
        let mut g = TileGroup::new_empty();
        g.add_tiles(Tile::Blue, n as u8);
        assert_eq!(floor_score(&g, false), *want);
    }
    let mut g = TileGroup::new_empty();
    g.add_tiles(Tile::Red, 5);
    assert_eq!(floor_score(&g, true), 11);
    assert_eq!(floor_score(&TileGroup::new_empty(), true), 1);
}

#[test]
fn can_play_tile_caps_at_capacity() {
    let b = PlayerBoard::default();
    assert_eq!(b.can_play_tile(RowIndex::Two, Tile::Red, 3), Some((2, 2)));
    assert_eq!(b.can_play_tile(RowIndex::Five, Tile::Red, 3), Some((3, 3)));
    let mut b = b;
    b.place_tiles(Destination::Row(RowIndex::Three), Tile::Red, 1, false);
    assert_eq!(b.can_play_tile(RowIndex::Three, Tile::Red, 4), Some((2, 3)));
    assert_eq!(b.can_play_tile(RowIndex::Three, Tile::Blue, 1), None);
}

#[test]
fn overflow_goes_to_floor() {
    let mut b = PlayerBoard::default();
    b.place_tiles(Destination::Row(RowIndex::Two), Tile::Black, 4, true);
    assert_eq!(b.rows[1].count(), 2);
    assert_eq!(b.rows[1].tile(), Some(Tile::Black));
    assert_eq!(b.floor.total(), 2);
    assert!(b.first_player_tile);
    assert_eq!(b.tile_count(), 4);
    // full row scores 1, floor of 2 tiles plus token costs 4: clamped at 0
    assert_eq!(b.predicted_score, 0);
}

#[test]
fn end_round_moves_full_rows_and_scores() {
    let mut b = PlayerBoard::default();
    b.place_tiles(Destination::Row(RowIndex::One), Tile::Blue, 1, false);
    b.place_tiles(Destination::Row(RowIndex::Two), Tile::Yellow, 2, false);
    b.place_tiles(Destination::Row(RowIndex::Three), Tile::Red, 1, false);
    assert_eq!(b.predicted_score, 2);
    let (back, ends) = b.end_round();
    assert!(!ends);
    // blue at (0,0) scores 1; yellow at (1,2) is not adjacent: 1
    assert_eq!(b.score, 2);
    assert_eq!(back.total(), 1);
    assert_eq!(back.tile_count(Tile::Yellow), 1);
    assert!(b.rows[0].is_empty());
    assert!(b.rows[1].is_empty());
    assert_eq!(b.rows[2].count(), 1);
    assert_eq!(b.tile_count(), 3);
}

#[test]
fn floor_penalty_never_below_zero() {
    let mut b = PlayerBoard::default();
    b.place_tiles(Destination::Floor, Tile::White, 7, true);
    let (back, _) = b.end_round();
    assert_eq!(b.score, 0);
    assert_eq!(back.total(), 7);
    assert!(!b.first_player_tile);
    assert_eq!(b.floor.total(), 0);
}

#[test]
fn predict_score_only_sets_prediction() {
    let mut b = PlayerBoard::default();
    b.place_tiles(Destination::Row(RowIndex::One), Tile::Blue, 1, false);
    let before = b;
    let p = b.predict_score();
    assert_eq!(p, 1);
    assert_eq!(b, before);
    assert_eq!(b.simulate_wall().tile_count(), 1);
    assert_eq!(b.wall.tile_count(), 0);
}

#[test]
fn end_game_adds_bonus() {
    let mut b = PlayerBoard::default();
    for t in [Tile::Blue, Tile::Yellow, Tile::Red, Tile::Black, Tile::White] {
        b.wall.place_tile(RowIndex::One, t);
    }
    b.end_game();
    assert_eq!(b.score, 2);
    assert_eq!(b.row_iter().len(), 5);
}
