use azul_tiles_rs::tiles::Tile;
use azul_tiles_rs::wall::{wall_colour, ColumnIndex, RowIndex, Wall};

const WALL_COLOURS: [[Tile; 5]; 5] = [
    [Tile::Blue, Tile::Yellow, Tile::Red, Tile::Black, Tile::White],
    [Tile::White, Tile::Blue, Tile::Yellow, Tile::Red, Tile::Black],
    [Tile::Black, Tile::White, Tile::Blue, Tile::Yellow, Tile::Red],
    [Tile::Red, Tile::Black, Tile::White, Tile::Blue, Tile::Yellow],
    [Tile::Yellow, Tile::Red, Tile::Black, Tile::White, Tile::Blue],
];

const ROWS: [RowIndex; 5] = [RowIndex::One, RowIndex::Two, RowIndex::Three, RowIndex::Four, RowIndex::Five];
const TILES: [Tile; 5] = [Tile::Blue, Tile::Yellow, Tile::Red, Tile::Black, Tile::White];
const COLUMNS: [ColumnIndex; 5] = [
    ColumnIndex::One,
    ColumnIndex::Two,
    ColumnIndex::Three,
    ColumnIndex::Four,
    ColumnIndex::Five,
];

#[test]
fn tile_column() {
    for row in ROWS {
        for tile in TILES {
            let col = row.tile_column(&tile);
            assert_eq!(tile, WALL_COLOURS[row as usize][col as usize]);
        }
    }
}

#[test]
fn column_is_row_plus_ordinal_mod_five() {
    for row in ROWS {
        for tile in TILES {
            let col = row.tile_column(&tile);
            assert_eq!(col as usize, (row as usize + tile as usize) % 5);
        }
    }
}

#[test]
fn printed_colours_match_reference_table() {
    for row in ROWS {
        for col in COLUMNS {
            assert_eq!(wall_colour(row, col), WALL_COLOURS[row as usize][col as usize]);
        }
    }
}

#[test]
fn single_tile_score() {
    let wal = Wall::default();
    for row in ROWS {
        for tile in TILES {
            let score = wal.score_tile(row, tile);
            assert_eq!(score, 1);
        }
    }
}

#[test]
fn wall_colours() {
    let mut wall = Wall::default();
    println!("{:?}", RowIndex::Two.tile_column(&Tile::Black));
    wall.place_tile(RowIndex::One, Tile::Black);
    assert_eq!(wall.get(RowIndex::One, ColumnIndex::Four), Some(Tile::Black));
}

#[test]
fn tile_scores() {
    // put tile in top left
    let mut wall = Wall::default();
    wall.place_tile(RowIndex::One, Tile::Blue);
    for row in ROWS {
        for tile in TILES {
            let expected = match (row, tile) {
                (RowIndex::One, Tile::Yellow) => 2,
                (RowIndex::Two, Tile::White) => 2,
                _ => 1,
            };

            assert_eq!(wall.score_tile(row, tile), expected);
        }
    }

    // put tile in centre
    let mut wall = Wall::default();
    wall.place_tile(RowIndex::Three, Tile::Blue);
    for row in ROWS {
        for tile in TILES {
            let expected = match (row, tile) {
                (RowIndex::Two, Tile::Yellow) => 2,
                (RowIndex::Three, Tile::White) => 2,
                (RowIndex::Three, Tile::Yellow) => 2,
                (RowIndex::Four, Tile::White) => 2,
                _ => 1,
            };

            assert_eq!(wall.score_tile(row, tile), expected);
        }
    }

    // Add a tile to top right
    wall.place_tile(RowIndex::Two, Tile::Red);
    for row in ROWS {
        for tile in TILES {
            let expected = match (row, tile) {
                (RowIndex::Two, Tile::Yellow) => 4,
                (RowIndex::Three, Tile::White) => 2,
                (RowIndex::Three, Tile::Yellow) => 4,
                (RowIndex::Four, Tile::White) => 2,
                (RowIndex::One, Tile::Black) => 2,
                (RowIndex::Two, Tile::Black) => 2,
                _ => 1,
            };

            assert_eq!(wall.score_tile(row, tile), expected);
        }
    }

    // Add more for complexity
    wall.place_tile(RowIndex::Three, Tile::Red);
    wall.place_tile(RowIndex::Four, Tile::Blue);
    for row in ROWS {
        for tile in TILES {
            let expected = match (row, tile) {
                (RowIndex::Two, Tile::Yellow) => 4,
                (RowIndex::Three, Tile::White) => 2,
                (RowIndex::Three, Tile::Yellow) => 6,
                (RowIndex::Four, Tile::White) => 4,
                (RowIndex::One, Tile::Black) => 2,
                (RowIndex::Two, Tile::Black) => 4,
                (RowIndex::Four, Tile::Yellow) => 4,
                (RowIndex::Five, Tile::White) => 2,
                _ => 1,
            };

            assert_eq!(wall.score_tile(row, tile), expected);
        }
    }
}

#[test]
fn wall_scores() {
    let mut wall = Wall::default();
    wall.place_tile(RowIndex::Five, Tile::Blue);
    assert_eq!(wall.score(), 0);
    wall.place_tile(RowIndex::Four, Tile::Yellow);
    assert_eq!(wall.score(), 0);
    wall.place_tile(RowIndex::Three, Tile::Red);
    assert_eq!(wall.score(), 0);
    wall.place_tile(RowIndex::Two, Tile::Black);
    assert_eq!(wall.score(), 0);
    wall.place_tile(RowIndex::One, Tile::White);
    assert_eq!(wall.score(), 7);
    wall.place_tile(RowIndex::One, Tile::Blue);
    assert_eq!(wall.score(), 7);
    wall.place_tile(RowIndex::One, Tile::Yellow);
    assert_eq!(wall.score(), 7);
    wall.place_tile(RowIndex::One, Tile::Red);
    assert_eq!(wall.score(), 7);
    wall.place_tile(RowIndex::One, Tile::Black);
    assert_eq!(wall.score(), 9);
    wall.place_tile(RowIndex::Two, Tile::Blue);
    assert_eq!(wall.score(), 9);
    wall.place_tile(RowIndex::Three, Tile::Blue);
    assert_eq!(wall.score(), 9);
    wall.place_tile(RowIndex::Four, Tile::Blue);
    assert_eq!(wall.score(), 19);
    wall.place_tile(RowIndex::Two, Tile::White);
    assert_eq!(wall.score(), 19);
    wall.place_tile(RowIndex::Two, Tile::Yellow);
    assert_eq!(wall.score(), 19);
    wall.place_tile(RowIndex::Two, Tile::Red);
    assert_eq!(wall.score(), 21);
    wall.place_tile(RowIndex::Three, Tile::Yellow);
    assert_eq!(wall.score(), 21);
    wall.place_tile(RowIndex::Five, Tile::White);
    assert_eq!(wall.score(), 28);
    wall.place_tile(RowIndex::Five, Tile::Yellow);
    assert_eq!(wall.score(), 38);
}

#[test]
fn adjacent_placements_score_runs() {
    let mut wall = Wall::default();
    wall.place_tile(RowIndex::One, Tile::Blue);
    // next to it in the first row: a run of two
    assert_eq!(wall.score_tile(RowIndex::One, Tile::Yellow), 2);
    wall.place_tile(RowIndex::One, Tile::Yellow);
    assert_eq!(wall.score_tile(RowIndex::One, Tile::Red), 3);
    // below the blue tile: a column run of two
    assert_eq!(wall.score_tile(RowIndex::Two, Tile::White), 2);
    wall.place_tile(RowIndex::Two, Tile::White);
    // completes a 2x2 square: row run 2 plus column run 2
    assert_eq!(wall.score_tile(RowIndex::Two, Tile::Blue), 4);
}

#[test]
fn full_row_column_and_colour() {
    let mut wall = Wall::default();
    assert!(!wall.has_full_row());
    for tile in TILES {
        wall.place_tile(RowIndex::Three, tile);
    }
    assert!(wall.has_full_row());
    assert_eq!(wall.score(), 2);
    assert_eq!(wall.tile_count(), 5);
    let mut colour = Wall::default();
    for row in ROWS {
        colour.place_tile(row, Tile::Red);
    }
    assert!(!colour.has_full_row());
    assert_eq!(colour.score(), 10);
    let mut column = Wall::default();
    for row in ROWS {
        column.place_tile(row, wall_colour(row, ColumnIndex::Two));
    }
    assert_eq!(column.score(), 7);
}

#[test]
fn row_capacity() {
    assert_eq!(RowIndex::One.capacity(), 1);
    assert_eq!(RowIndex::Five.capacity(), 5);
    assert_eq!(RowIndex::Three.row_capacity(), 3);
}
