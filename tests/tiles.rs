use azul_tiles_rs::tiles::{Tile, TileGroup};
use rand::SeedableRng;

#[test]
fn take_tiles() {
    let mut tg = TileGroup::new_bag();
    let mut tg_2 = TileGroup::new_empty();
    assert_eq!(tg.total(), 100);
    let mut rng = rand::rngs::SmallRng::from_os_rng();
    for _ in 0..100 {
        let tile = tg.random_tile(&mut rng).unwrap();
        tg_2.add_tile(tile);
    }
    assert_eq!(tg.total(), 0);
    assert!(tg.random_tile(&mut rng).is_none());
    assert_eq!(tg_2.total(), 100);
}

#[test]
fn drawing_everything_returns_every_colour_twenty_times() {
    let mut bag = TileGroup::new_bag();
    let mut drawn = TileGroup::new_empty();
    let mut rng = rand::rngs::SmallRng::seed_from_u64(7);
    while let Some(t) = bag.random_tile(&mut rng) {
        drawn.add_tile(t);
    }
    for t in [Tile::Blue, Tile::Yellow, Tile::Red, Tile::Black, Tile::White] {
        assert_eq!(drawn.tile_count(t), 20);
        assert_eq!(bag.tile_count(t), 0);
    }
}

#[test]
fn take_nth_follows_colour_order() {
    let mut g = TileGroup::new_empty();
    g.add_tiles(Tile::Yellow, 2);
    g.add_tiles(Tile::Black, 3);
    let mut a = g;
    assert_eq!(a.take_nth(0), Tile::Yellow);
    assert_eq!(a.tile_count(Tile::Yellow), 1);
    let mut b = g;
    assert_eq!(b.take_nth(2), Tile::Black);
    assert_eq!(b.tile_count(Tile::Black), 2);
    assert_eq!(b.total(), 4);
}

#[test]
fn take_tile_empties_one_colour() {
    let mut g = TileGroup::new_bag();
    assert_eq!(g.take_tile(Tile::Red), 20);
    assert_eq!(g.tile_count(Tile::Red), 0);
    assert_eq!(g.total(), 80);
    assert_eq!(g.take_tile(Tile::Red), 0);
}

#[test]
fn empty_returns_contents() {
    let mut g = TileGroup::new_empty();
    g.add_tiles(Tile::White, 3);
    let r = g.empty();
    assert_eq!(r.tile_count(Tile::White), 3);
    assert_eq!(g.total(), 0);
}

#[test]
fn merge_adds_counts() {
    let mut a = TileGroup::new_empty();
    a.add_tiles(Tile::Blue, 2);
    let mut b = TileGroup::new_empty();
    b.add_tiles(Tile::Blue, 1);
    b.add_tile(Tile::Red);
    a.merge(&b);
    assert_eq!(a.tile_count(Tile::Blue), 3);
    assert_eq!(a.tile_count(Tile::Red), 1);
    assert_eq!(a.total(), 4);
}

#[test]
fn tile_vec_in_colour_order() {
    let mut g = TileGroup::new_empty();
    g.add_tiles(Tile::White, 1);
    g.add_tiles(Tile::Blue, 2);
    g.add_tiles(Tile::Red, 1);
    assert_eq!(g.tile_vec(), vec![Tile::Blue, Tile::Blue, Tile::Red, Tile::White]);
    assert_eq!(TileGroup::new_empty().tile_vec(), vec![]);
}
