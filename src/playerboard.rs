//! A player's board: five pattern lines, the wall, the floor, the score and
//! the first-player token.

use vstd::prelude::*;
use crate::tiles::{Tile, TileGroup, lemma_group_ext};
use crate::wall::{
    Wall,
    RowIndex,
    column_of,
    ind,
    lemma_with_tile,
    lemma_place_totals,
    lemma_placement_score_le,
    lemma_score_bound_le,
    lemma_bonus_le,
    lemma_column_rule,
    lemma_empty_wall_totals,
    lemma_line_count_le,
};
use crate::gamestate::Destination;

verus! {

/// Penalty for `n` items on the floor (the first-player token counts as one).
pub open spec fn floor_penalty(n: int) -> nat {
    if n <= 0 {
        0
    } else if n == 1 {
        1
    } else if n == 2 {
        2
    } else if n == 3 {
        4
    } else if n == 4 {
        6
    } else if n == 5 {
        8
    } else if n == 6 {
        11
    } else {
        14
    }
}

/// `a - b`, or 0 when that is negative.
pub open spec fn clamp_sub(a: int, b: int) -> int {
    if a < b {
        0
    } else {
        a - b
    }
}

pub open spec fn min(a: int, b: int) -> int {
    if a < b {
        a
    } else {
        b
    }
}

/// A pattern line: empty, or a colour with how many tiles of it it holds.
#[derive(Debug, Clone, Copy, PartialEq, Eq)]
pub struct Row(Option<(Tile, u8)>);

impl View for Row {
    type V = Option<(Tile, u8)>;

    closed spec fn view(&self) -> Option<(Tile, u8)> {
        self.0
    }
}

impl Row {
    /// Number of tiles on the line.
    pub open spec fn held(&self) -> nat {
        match self@ {
            Some((_, n)) => n as nat,
            None => 0,
        }
    }

    pub open spec fn colour(&self) -> Option<Tile> {
        match self@ {
            Some((t, _)) => Some(t),
            None => None,
        }
    }

    pub fn new() -> (r: Row)
        ensures
            r@ is None,
    {
        Row(None)
    }

    pub fn is_empty(&self) -> (b: bool)
        ensures
            b == (self@ is None),
    {
        self.0.is_none()
    }

    pub fn tile(&self) -> (t: Option<Tile>)
        ensures
            t == self.colour(),
    {
        match self.0 {
            Some((tile, _)) => Some(tile),
            None => None,
        }
    }

    pub fn count(&self) -> (n: u8)
        ensures
            n == self.held(),
    {
        match self.0 {
            Some((_, count)) => count,
            None => 0,
        }
    }
}

impl Default for Row {
    fn default() -> (r: Row)
        ensures
            r@ is None,
    {
        Row::new()
    }
}

/// Penalty for the tiles of `tiles` plus the first-player token when `fp`.
pub fn floor_score(tiles: &TileGroup, fp: bool) -> (p: u8)
    requires
        tiles.size() <= 254,
    ensures
        p == floor_penalty((tiles.size() + ind(fp)) as int),
{
    let total = tiles.total() + if fp {
        1
    } else {
        0
    };
    if total == 0 {
        0
    } else if total == 1 {
        1
    } else if total == 2 {
        2
    } else if total == 3 {
        4
    } else if total == 4 {
        6
    } else if total == 5 {
        8
    } else if total == 6 {
        11
    } else {
        14
    }
}

#[derive(Debug, Clone, Copy, PartialEq, Eq)]
pub struct PlayerBoard {
    /// Wall of tiles
    pub wall: Wall,
    /// Floor of tiles
    pub floor: TileGroup,
    /// First player tile
    pub first_player_tile: bool,
    /// Pattern lines
    pub rows: [Row; 5],
    /// Score
    pub score: u8,
    /// Predicted score if rows were moved to wall
    pub predicted_score: u8,
}

impl PlayerBoard {
    pub open spec fn row(&self, i: int) -> Row {
        self.rows@[i]
    }

    /// Line `i` holds at most `i + 1` tiles of one colour whose wall cell in
    /// row `i` is still free.
    pub open spec fn row_ok(&self, i: int) -> bool {
        match self.row(i)@ {
            None => true,
            Some((t, n)) => n <= i + 1 && !self.wall.occupied(i, column_of(i, t)),
        }
    }

    pub open spec fn inv(&self) -> bool {
        &&& self.row_ok(0)
        &&& self.row_ok(1)
        &&& self.row_ok(2)
        &&& self.row_ok(3)
        &&& self.row_ok(4)
    }

    pub open spec fn row_full(&self, i: int) -> bool {
        match self.row(i)@ {
            Some((_, n)) => n == i + 1,
            None => false,
        }
    }

    pub open spec fn rows_total(&self) -> nat {
        self.row(0).held() + self.row(1).held() + self.row(2).held() + self.row(3).held()
            + self.row(4).held()
    }

    /// Every tile on the board: pattern lines, floor and wall.
    pub open spec fn tiles(&self) -> nat {
        self.rows_total() + self.floor.size() + self.wall.tile_total()
    }

    pub open spec fn score_bounded(&self) -> bool {
        self.score <= self.wall.score_bound()
    }

    /// Items on the floor, the first-player token included.
    pub open spec fn floor_load(&self) -> int {
        (self.floor.size() + ind(self.first_player_tile)) as int
    }

    /// The wall and the points after moving one tile of each full line among
    /// the first `k` onto the wall, in order.
    pub open spec fn resolved(&self, k: int) -> (Wall, nat)
        decreases k,
    {
        if k <= 0 {
            (self.wall, 0)
        } else {
            let (w, p) = self.resolved(k - 1);
            match self.row(k - 1)@ {
                Some((t, n)) => if n == k {
                    (
                        w.with_tile(k - 1, column_of(k - 1, t), t),
                        p + w.placement_score(k - 1, column_of(k - 1, t)),
                    )
                } else {
                    (w, p)
                },
                None => (w, p),
            }
        }
    }

    /// Number of full lines among the first `k`.
    pub open spec fn full_count(&self, k: int) -> nat
        decreases k,
    {
        if k <= 0 {
            0
        } else {
            self.full_count(k - 1) + ind(self.row_full(k - 1))
        }
    }

    /// Tiles of colour `u` that the full lines among the first `k` give back
    /// (all but the one that goes to the wall).
    pub open spec fn leftover(&self, k: int, u: Tile) -> nat
        decreases k,
    {
        if k <= 0 {
            0
        } else {
            self.leftover(k - 1, u) + match self.row(k - 1)@ {
                Some((t, n)) => if n == k && t == u {
                    (k - 1) as nat
                } else {
                    0
                },
                None => 0,
            }
        }
    }

    /// The score if every full line went to the wall now, with the wall's
    /// bonus, less the floor penalty, and never below zero.
    pub open spec fn predicted(&self) -> int {
        clamp_sub(
            self.score + self.resolved(5).1 + self.resolved(5).0.bonus(),
            floor_penalty(self.floor_load()) as int,
        )
    }

    /// Whether `n` tiles of colour `t` may go to line `i`, and if so how many
    /// land there and how many the line then holds.
    pub open spec fn can_place_spec(&self, i: int, t: Tile, n: int) -> Option<(int, int)> {
        match self.row(i)@ {
            Some((rt, rn)) => if rt == t && rn < i + 1 {
                let total = min(rn + n, i + 1);
                Some((total - rn, total))
            } else {
                None
            },
            None => if !self.wall.occupied(i, column_of(i, t)) {
                Some((min(n, i + 1), min(n, i + 1)))
            } else {
                None
            },
        }
    }

    /// The lines and floor of `self` are those of `old` with `n` tiles of
    /// colour `t` put on line `i`, the overflow going to the floor.
    pub open spec fn lines_after_row(&self, old: PlayerBoard, i: int, t: Tile, n: int) -> bool {
        let total = min(old.row(i).held() + n, i + 1);
        &&& self.row(i)@ == Some((t, total as u8))
        &&& forall|j: int| 0 <= j < 5 && j != i ==> #[trigger] self.rows@[j] == old.rows@[j]
        &&& self.floor.added(old.floor, t, (old.row(i).held() + n - total) as nat)
    }

    /// `self` is `old` with `n` tiles of colour `t` put on line `i`, the
    /// overflow going to the floor; nothing else changes.
    pub open spec fn placed_in_row(&self, old: PlayerBoard, i: int, t: Tile, n: int) -> bool {
        &&& self.lines_after_row(old, i, t, n)
        &&& self.wall == old.wall
        &&& self.score == old.score
        &&& self.first_player_tile == old.first_player_tile
    }

    /// `self` is `old` after `n` tiles of colour `t` went to `dest`, with the
    /// first-player token taken when `fp` (the stored prediction aside).
    pub open spec fn placement_result(
        &self,
        old: PlayerBoard,
        dest: Destination,
        t: Tile,
        n: int,
        fp: bool,
    ) -> bool {
        &&& self.wall == old.wall
        &&& self.score == old.score
        &&& self.first_player_tile == (old.first_player_tile || fp)
        &&& match dest {
            Destination::Row(r) => self.lines_after_row(old, r.index(), t, n),
            Destination::Floor => self.rows == old.rows && self.floor.added(old.floor, t, n as nat),
        }
    }

    /// A board at the start of a game.
    pub fn new() -> (b: PlayerBoard)
        ensures
            b.wall.is_empty_wall(),
            b.floor.size() == 0,
            !b.first_player_tile,
            forall|i: int| 0 <= i < 5 ==> (#[trigger] b.rows@[i])@ is None,
            b.score == 0,
            b.predicted_score == 0,
            b.inv(),
            b.tiles() == 0,
            b.score_bounded(),
    {
        let b = PlayerBoard {
            wall: Wall::new(),
            floor: TileGroup::new_empty(),
            first_player_tile: false,
            rows: [Row::new(), Row::new(), Row::new(), Row::new(), Row::new()],
            score: 0,
            predicted_score: 0,
        };
        proof {
            lemma_empty_wall_totals(b.wall);
        }
        b
    }

    /// The rows of the board with their indices.
    pub fn row_iter(&self) -> (v: Vec<(RowIndex, Row)>)
        ensures
            v@.len() == 5,
            forall|i: int| 0 <= i < 5 ==> (#[trigger] v@[i]).0.index() == i && v@[i].1 == self.rows@[i],
    {
        let mut v: Vec<(RowIndex, Row)> = Vec::new();
        let mut i: usize = 0;
        while i < 5
            invariant
                i <= 5,
                v@.len() == i,
                forall|j: int| 0 <= j < i ==> (#[trigger] v@[j]).0.index() == j && v@[j].1 == self.rows@[j],
            decreases 5 - i,
        {
            v.push((RowIndex::from_index(i), self.rows[i]));
            i = i + 1;
        }
        v
    }

    /// Whether `count` tiles of colour `tile` may go to line `row`; if so, how
    /// many of them land there and how many tiles the line then holds.
    pub fn can_play_tile(&self, row: RowIndex, tile: Tile, count: u8) -> (r: Option<(u8, u8)>)
        ensures
            match self.can_place_spec(row.index(), tile, count as int) {
                Some((a, b)) => r == Some((a as u8, b as u8)),
                None => r is None,
            },
    {
        let capacity = row.row_capacity();
        match self.rows[row.ordinal()].0 {
            Some((row_tile, row_count)) => {
                if row_tile == tile && row_count < capacity {
                    let total: u8 = if (row_count as u16) + (count as u16) < capacity as u16 {
                        row_count + count
                    } else {
                        capacity
                    };
                    Some((total - row_count, total))
                } else {
                    None
                }
            },
            None => {
                if self.wall.cell_available(row, &tile) {
                    let m = if count < capacity {
                        count
                    } else {
                        capacity
                    };
                    Some((m, m))
                } else {
                    None
                }
            },
        }
    }

    /// Put `count` tiles of colour `tile` on line `row_ind`; what does not fit
    /// goes to the floor.
    pub fn place_tiles_in_row(&mut self, row_ind: RowIndex, tile: Tile, count: u8)
        requires
            old(self).can_place_spec(row_ind.index(), tile, count as int) is Some,
            old(self).floor.count(tile) + count <= 255,
        ensures
            final(self).placed_in_row(*old(self), row_ind.index(), tile, count as int),
            final(self).predicted_score == old(self).predicted_score,
            old(self).inv() ==> final(self).inv(),
            final(self).tiles() == old(self).tiles() + count,
    {
        let i = row_ind.ordinal();
        let capacity = row_ind.row_capacity();
        let held = self.rows[i].count();
        let sum: u16 = held as u16 + count as u16;
        let total: u8 = if sum > capacity as u16 {
            capacity
        } else {
            sum as u8
        };
        let leftover: u8 = (sum - total as u16) as u8;
        self.rows[i] = Row(Some((tile, total)));
        self.floor.add_tiles(tile, leftover);
        proof {
            lemma_rows_total_update(*old(self), *self, i as int);
            if old(self).inv() {
                assert(self.row_ok(i as int));
                assert(self.row_ok(0) && self.row_ok(1) && self.row_ok(2) && self.row_ok(3) && self.row_ok(4)) by {
                    assert(i == 0 || self.rows@[0] == old(self).rows@[0]);
                    assert(i == 1 || self.rows@[1] == old(self).rows@[1]);
                    assert(i == 2 || self.rows@[2] == old(self).rows@[2]);
                    assert(i == 3 || self.rows@[3] == old(self).rows@[3]);
                    assert(i == 4 || self.rows@[4] == old(self).rows@[4]);
                }
            }
        }
    }

    fn resolve_rows(&self) -> (r: (Wall, u8))
        requires
            self.inv(),
            self.score_bounded(),
        ensures
            r.0 == self.resolved(5).0,
            r.1 == self.resolved(5).1,
            self.score + r.1 <= r.0.score_bound(),
    {
        let mut wall = self.wall;
        let mut points: u8 = 0;
        let mut k: usize = 0;
        while k < 5
            invariant
                k <= 5,
                self.inv(),
                self.score_bounded(),
                wall == self.resolved(k as int).0,
                points == self.resolved(k as int).1,
            decreases 5 - k,
        {
            proof {
                lemma_resolved(*self, k as int);
                lemma_resolved(*self, k as int + 1);
            }
            let row = RowIndex::from_index(k);
            match self.rows[k].0 {
                Some((t, n)) => {
                    if n == row.row_capacity() {
                        points = points + wall.score_tile(row, t);
                        wall.place_tile(row, t);
                    }
                },
                None => {},
            }
            k = k + 1;
        }
        proof {
            lemma_resolved(*self, 5);
        }
        (wall, points)
    }

    /// The wall as it will be once the full lines have gone to it.
    pub fn simulate_wall(&self) -> (w: Wall)
        requires
            self.inv(),
            self.score_bounded(),
        ensures
            w == self.resolved(5).0,
    {
        self.resolve_rows().0
    }

    /// Recompute and store the predicted score: the score as it would be if
    /// the round ended now, with the wall's bonus. Nothing else changes.
    pub fn predict_score(&mut self) -> (r: u8)
        requires
            old(self).inv(),
            old(self).score_bounded(),
            old(self).floor.size() <= 254,
        ensures
            r == old(self).predicted(),
            *final(self) == (PlayerBoard { predicted_score: r, ..*old(self) }),
    {
        let (wall, points) = self.resolve_rows();
        proof {
            lemma_score_bound_le(wall);
            lemma_bonus_le(wall);
        }
        let total = self.score + points + wall.score();
        let penalty = floor_score(&self.floor, self.first_player_tile);
        self.predicted_score = if total < penalty {
            0
        } else {
            total - penalty
        };
        self.predicted_score
    }

    /// Put `count` tiles of colour `tile` at `dest` (a line, with overflow to
    /// the floor, or the floor), take the first-player token when
    /// `first_player_tile`, and update the predicted score.
    #[verifier::rlimit(40)]
    pub fn place_tiles(
        &mut self,
        dest: Destination,
        tile: Tile,
        count: u8,
        first_player_tile: bool,
    )
        requires
            old(self).inv(),
            old(self).score_bounded(),
            old(self).floor.size() + count <= 254,
            dest matches Destination::Row(r) ==> old(self).can_place_spec(
                r.index(),
                tile,
                count as int,
            ) is Some,
        ensures
            final(self).placement_result(*old(self), dest, tile, count as int, first_player_tile),
            final(self).inv(),
            final(self).score_bounded(),
            final(self).tiles() == old(self).tiles() + count,
            final(self).first_player_tile == (old(self).first_player_tile || first_player_tile),
            final(self).predicted_score == final(self).predicted(),
            final(self).wall == old(self).wall,
            final(self).score == old(self).score,
            dest matches Destination::Row(r) ==> final(self).lines_after_row(
                *old(self),
                r.index(),
                tile,
                count as int,
            ),
            dest is Floor ==> final(self).rows == old(self).rows && final(self).floor.added(
                old(self).floor,
                tile,
                count as nat,
            ),
    {
        if first_player_tile {
            self.first_player_tile = true;
        }
        match dest {
            Destination::Row(row) => {
                proof {
                    lemma_column_rule(row.index(), tile);
                }
                self.place_tiles_in_row(row, tile, count);
            },
            Destination::Floor => self.floor.add_tiles(tile, count),
        }
        let ghost before = *self;
        self.predict_score();
        proof {
            lemma_predicted_same(before, *self);
        }
    }

    /// Empty every full line, collecting all but one tile of each.
    #[verifier::rlimit(40)]
    fn take_full_rows(&mut self) -> (tile_return: TileGroup)
        requires
            old(self).inv(),
        ensures
            final(self).wall == old(self).wall,
            final(self).floor == old(self).floor,
            final(self).score == old(self).score,
            final(self).first_player_tile == old(self).first_player_tile,
            final(self).predicted_score == old(self).predicted_score,
            forall|i: int|
                0 <= i < 5 ==> if old(self).row_full(i) {
                    (#[trigger] final(self).rows@[i])@ is None
                } else {
                    final(self).rows@[i] == old(self).rows@[i]
                },
            forall|u: Tile| #[trigger] tile_return.count(u) == old(self).leftover(5, u),
            final(self).rows_total() + tile_return.size() + old(self).full_count(5)
                == old(self).rows_total(),
            tile_return.size() <= 15,
    {
        let mut tile_return = TileGroup::new_empty();
        let mut k: usize = 0;
        while k < 5
            invariant
                k <= 5,
                old(self).inv(),
                self.wall == old(self).wall,
                self.floor == old(self).floor,
                self.score == old(self).score,
                self.first_player_tile == old(self).first_player_tile,
                self.predicted_score == old(self).predicted_score,
                forall|i: int|
                    0 <= i < k ==> if old(self).row_full(i) {
                        (#[trigger] self.rows@[i])@ is None
                    } else {
                        self.rows@[i] == old(self).rows@[i]
                    },
                forall|i: int| k <= i < 5 ==> #[trigger] self.rows@[i] == old(self).rows@[i],
                forall|u: Tile| #[trigger] tile_return.count(u) == old(self).leftover(k as int, u),
                self.rows_total() + tile_return.size() + old(self).full_count(k as int)
                    == old(self).rows_total(),
                tile_return.size() <= 15,
            decreases 5 - k,
        {
            let row = RowIndex::from_index(k);
            match self.rows[k].0 {
                Some((t, n)) => {
                    if n == row.row_capacity() {
                        let ghost before = *self;
                        tile_return.add_tiles(t, n - 1);
                        self.rows[k] = Row(None);
                        proof {
                            lemma_rows_total_update(before, *self, k as int);
                        }
                    }
                },
                None => {},
            }
            k = k + 1;
        }
        tile_return
    }

    /// Resolve the round for this board: move one tile of each full line to
    /// the wall in line order, scoring each placement; give back the rest of
    /// those lines and the floor; subtract the floor penalty (never below
    /// zero); give up the first-player token. Returns the tiles for the bag
    /// and whether the wall now has a full row.
    pub fn end_round(&mut self) -> (r: (TileGroup, bool))
        requires
            old(self).inv(),
            old(self).score_bounded(),
            old(self).floor.size() <= 240,
        ensures
            final(self).wall == old(self).resolved(5).0,
            final(self).score == clamp_sub(
                old(self).score + old(self).resolved(5).1,
                floor_penalty(old(self).floor_load()) as int,
            ),
            forall|i: int|
                0 <= i < 5 ==> if old(self).row_full(i) {
                    (#[trigger] final(self).rows@[i])@ is None
                } else {
                    final(self).rows@[i] == old(self).rows@[i]
                },
            final(self).floor.size() == 0,
            !final(self).first_player_tile,
            final(self).predicted_score == old(self).predicted_score,
            forall|u: Tile| #[trigger]
                r.0.count(u) == old(self).floor.count(u) + old(self).leftover(5, u),
            r.1 == final(self).wall.has_full_row_spec(),
            final(self).inv(),
            final(self).score_bounded(),
            final(self).tiles() + r.0.size() == old(self).tiles(),
    {
        let (wall, points) = self.resolve_rows();
        proof {
            lemma_resolved(*old(self), 5);
            lemma_score_bound_le(wall);
        }
        let tile_return = self.take_full_rows();
        self.wall = wall;
        let floor = self.floor.empty();
        let penalty = floor_score(&floor, self.first_player_tile);
        let total = self.score + points;
        self.score = if total < penalty {
            0
        } else {
            total - penalty
        };
        self.first_player_tile = false;
        let mut tile_return = tile_return;
        tile_return.merge(&floor);
        proof {
            lemma_resolved_rows_ok(*old(self), *self);
        }
        (tile_return, self.wall.has_full_row())
    }

    /// Add the wall's bonus to the score, once, at the end of the game.
    pub fn end_game(&mut self)
        requires
            old(self).score_bounded(),
        ensures
            final(self).score == old(self).score + old(self).wall.bonus(),
            *final(self) == (PlayerBoard { score: final(self).score, ..*old(self) }),
    {
        proof {
            lemma_score_bound_le(self.wall);
            lemma_bonus_le(self.wall);
        }
        self.score = self.score + self.wall.score();
    }

    /// Number of tiles on the board.
    pub fn tile_count(&self) -> (n: u8)
        requires
            self.tiles() <= 255,
        ensures
            n == self.tiles(),
    {
        let count = self.rows[0].count() + self.rows[1].count() + self.rows[2].count()
            + self.rows[3].count() + self.rows[4].count();
        count + self.floor.total() + self.wall.tile_count()
    }
}

impl Default for PlayerBoard {
    fn default() -> (b: PlayerBoard)
        ensures
            b.inv(),
            b.tiles() == 0,
            b.score == 0,
    {
        PlayerBoard::new()
    }
}

/// Facts about resolving the first `k` lines of a well-formed board.
pub proof fn lemma_resolved(b: PlayerBoard, k: int)
    requires
        b.inv(),
        0 <= k <= 5,
    ensures
        forall|i: int, c: int|
            0 <= i < 5 && 0 <= c < 5 && (i >= k || !b.row_full(i)) ==> #[trigger] b.resolved(
                k,
            ).0.cell(i, c) == b.wall.cell(i, c),
        b.resolved(k).0.tile_total() == b.wall.tile_total() + b.full_count(k),
        b.resolved(k).0.score_bound() >= b.wall.score_bound() + b.resolved(k).1,
        b.resolved(k).1 <= 10 * k,
    decreases k,
{
    if k > 0 {
        lemma_resolved(b, k - 1);
        let (w, p) = b.resolved(k - 1);
        match b.row(k - 1)@ {
            Some((t, n)) => {
                if n == k {
                    let c = column_of(k - 1, t);
                    lemma_column_rule(k - 1, t);
                    assert(w.cell(k - 1, c) == b.wall.cell(k - 1, c));
                    lemma_with_tile(w, k - 1, c, t);
                    lemma_place_totals(w.with_tile(k - 1, c, t), w, k - 1, c, t);
                    lemma_placement_score_le(w, k - 1, c);
                }
            },
            None => {},
        }
    }
}

proof fn lemma_resolved_same(a: PlayerBoard, b: PlayerBoard, k: int)
    requires
        a.rows == b.rows,
        a.wall == b.wall,
    ensures
        a.resolved(k) == b.resolved(k),
    decreases k,
{
    if k > 0 {
        lemma_resolved_same(a, b, k - 1);
    }
}

/// The prediction does not depend on the stored predicted score.
proof fn lemma_predicted_same(a: PlayerBoard, b: PlayerBoard)
    requires
        b == (PlayerBoard { predicted_score: b.predicted_score, ..a }),
    ensures
        a.predicted() == b.predicted(),
{
    lemma_resolved_same(a, b, 5);
}

/// A board holds at most 15 tiles on its lines and 25 on its wall.
pub proof fn lemma_board_capacity(b: PlayerBoard)
    requires
        b.inv(),
    ensures
        b.rows_total() <= 15,
        b.wall.tile_total() <= 25,
{
    lemma_line_count_le(b.wall, true, 0, 5);
    lemma_line_count_le(b.wall, true, 1, 5);
    lemma_line_count_le(b.wall, true, 2, 5);
    lemma_line_count_le(b.wall, true, 3, 5);
    lemma_line_count_le(b.wall, true, 4, 5);
}

/// The placement determines the prediction.
pub proof fn lemma_placement_result_predicted(
    a: PlayerBoard,
    b: PlayerBoard,
    old: PlayerBoard,
    dest: Destination,
    t: Tile,
    n: int,
    fp: bool,
)
    requires
        a.placement_result(old, dest, t, n, fp),
        b.placement_result(old, dest, t, n, fp),
    ensures
        a.predicted() == b.predicted(),
{
    assert forall|u: Tile| #[trigger] a.floor.count(u) == b.floor.count(u) by {}
    lemma_group_ext(a.floor, b.floor);
    match dest {
        Destination::Row(r) => {
            assert forall|j: int| 0 <= j < 5 implies a.rows@[j] == b.rows@[j] by {
                if j == r.index() {
                    lemma_row_ext(a.rows@[j], b.rows@[j]);
                }
            }
            assert(a.rows =~= b.rows);
        },
        Destination::Floor => {},
    }
    lemma_predicted_same(a, PlayerBoard { predicted_score: a.predicted_score, ..b });
    lemma_predicted_same(b, PlayerBoard { predicted_score: a.predicted_score, ..b });
}

proof fn lemma_row_ext(a: Row, b: Row)
    requires
        a@ == b@,
    ensures
        a == b,
{
}

/// Changing one line changes the line total by the difference on that line.
proof fn lemma_rows_total_update(old: PlayerBoard, new: PlayerBoard, i: int)
    requires
        0 <= i < 5,
        forall|j: int| 0 <= j < 5 && j != i ==> #[trigger] new.rows@[j] == old.rows@[j],
    ensures
        new.rows_total() + old.row(i).held() == old.rows_total() + new.row(i).held(),
{
    assert(i == 0 || new.rows@[0] == old.rows@[0]);
    assert(i == 1 || new.rows@[1] == old.rows@[1]);
    assert(i == 2 || new.rows@[2] == old.rows@[2]);
    assert(i == 3 || new.rows@[3] == old.rows@[3]);
    assert(i == 4 || new.rows@[4] == old.rows@[4]);
}

/// After the round is resolved, the lines that stay are still well formed.
proof fn lemma_resolved_rows_ok(old: PlayerBoard, new: PlayerBoard)
    requires
        old.inv(),
        new.wall == old.resolved(5).0,
        forall|i: int|
            0 <= i < 5 ==> if old.row_full(i) {
                (#[trigger] new.rows@[i])@ is None
            } else {
                new.rows@[i] == old.rows@[i]
            },
    ensures
        new.inv(),
{
    lemma_resolved(old, 5);
    assert forall|i: int| 0 <= i < 5 implies #[trigger] new.row_ok(i) by {
        assert(new.rows@[i] == new.row(i));
        match new.row(i)@ {
            Some((t, n)) => {
                lemma_column_rule(i, t);
                assert(new.wall.cell(i, column_of(i, t)) == old.wall.cell(i, column_of(i, t)));
            },
            None => {},
        }
    }
    assert(new.row_ok(0));
    assert(new.row_ok(1));
    assert(new.row_ok(2));
    assert(new.row_ok(3));
    assert(new.row_ok(4));
}

} // verus!
