//! A player's wall: the 5x5 grid where each colour has one fixed cell per row,
//! with the scoring of a single placement and of the end-of-game bonuses.

use vstd::prelude::*;
use crate::tiles::{Tile, lemma_tile_of_index};

verus! {

/// Column of the cell that colour `t` occupies in row `row`.
pub open spec fn column_of(row: int, t: Tile) -> int {
    (row + t.index()) % 5
}

/// `n(n+1)/2`.
pub open spec fn tri(n: int) -> int
    decreases n,
{
    if n <= 0 {
        0
    } else {
        n + tri(n - 1)
    }
}

/// 1 when `b` holds, else 0.
pub open spec fn ind(b: bool) -> nat {
    if b {
        1
    } else {
        0
    }
}

/// Row of the wall (and of the pattern lines); row `i` holds `i + 1` tiles.
#[derive(Debug, Clone, Copy, PartialEq, Eq, Structural, PartialOrd, Ord)]
pub enum RowIndex {
    One,
    Two,
    Three,
    Four,
    Five,
}

/// Column of the wall.
#[derive(Debug, Clone, Copy, PartialEq, Eq, Structural)]
pub enum ColumnIndex {
    One,
    Two,
    Three,
    Four,
    Five,
}

impl RowIndex {
    pub open spec fn index(self) -> int {
        match self {
            RowIndex::One => 0,
            RowIndex::Two => 1,
            RowIndex::Three => 2,
            RowIndex::Four => 3,
            RowIndex::Five => 4,
        }
    }

    pub fn ordinal(&self) -> (r: usize)
        ensures
            r == self.index(),
    {
        match self {
            RowIndex::One => 0,
            RowIndex::Two => 1,
            RowIndex::Three => 2,
            RowIndex::Four => 3,
            RowIndex::Five => 4,
        }
    }

    pub fn from_index(i: usize) -> (r: RowIndex)
        requires
            i < 5,
        ensures
            r.index() == i,
    {
        if i == 0 {
            RowIndex::One
        } else if i == 1 {
            RowIndex::Two
        } else if i == 2 {
            RowIndex::Three
        } else if i == 3 {
            RowIndex::Four
        } else {
            RowIndex::Five
        }
    }

    /// Column in this row of the cell for colour `tile`.
    pub fn tile_column(&self, tile: &Tile) -> (c: ColumnIndex)
        ensures
            c.index() == column_of(self.index(), *tile),
    {
        ColumnIndex::from_index((self.ordinal() + tile.ordinal() as usize) % 5)
    }

    /// How many tiles fit in this row.
    pub fn capacity(&self) -> (r: u8)
        ensures
            r == self.index() + 1,
    {
        match self {
            RowIndex::One => 1,
            RowIndex::Two => 2,
            RowIndex::Three => 3,
            RowIndex::Four => 4,
            RowIndex::Five => 5,
        }
    }

    /// How many tiles fit in this pattern line.
    pub fn row_capacity(&self) -> (r: u8)
        ensures
            r == self.index() + 1,
    {
        self.capacity()
    }
}

impl ColumnIndex {
    pub open spec fn index(self) -> int {
        match self {
            ColumnIndex::One => 0,
            ColumnIndex::Two => 1,
            ColumnIndex::Three => 2,
            ColumnIndex::Four => 3,
            ColumnIndex::Five => 4,
        }
    }

    pub fn ordinal(&self) -> (r: usize)
        ensures
            r == self.index(),
    {
        match self {
            ColumnIndex::One => 0,
            ColumnIndex::Two => 1,
            ColumnIndex::Three => 2,
            ColumnIndex::Four => 3,
            ColumnIndex::Five => 4,
        }
    }

    pub fn from_index(i: usize) -> (c: ColumnIndex)
        requires
            i < 5,
        ensures
            c.index() == i,
    {
        if i == 0 {
            ColumnIndex::One
        } else if i == 1 {
            ColumnIndex::Two
        } else if i == 2 {
            ColumnIndex::Three
        } else if i == 3 {
            ColumnIndex::Four
        } else {
            ColumnIndex::Five
        }
    }
}

/// The colour printed on each cell of the wall.
pub fn wall_colour(row: RowIndex, col: ColumnIndex) -> (t: Tile)
    ensures
        column_of(row.index(), t) == col.index(),
{
    let i = (col.ordinal() + 5 - row.ordinal()) % 5;
    if i == 0 {
        Tile::Blue
    } else if i == 1 {
        Tile::Yellow
    } else if i == 2 {
        Tile::Red
    } else if i == 3 {
        Tile::Black
    } else {
        Tile::White
    }
}

/// Every colour sits in one column of each row, and the printed colour of
/// that cell is the colour itself: the wall shifts the colours of the first
/// row one column to the right on each following row.
pub proof fn lemma_column_rule(row: int, t: Tile)
    requires
        0 <= row < 5,
    ensures
        0 <= column_of(row, t) < 5,
        forall|u: Tile| column_of(row, u) == column_of(row, t) ==> u == t,
{
    assert forall|u: Tile| column_of(row, u) == column_of(row, t) implies u == t by {
        lemma_tile_of_index(u);
        lemma_tile_of_index(t);
    }
}

#[derive(Debug, Clone, Copy, PartialEq, Eq)]
pub struct Wall {
    cells: [[Option<Tile>; 5]; 5],
}

impl Wall {
    /// Content of the cell at row `r`, column `c`.
    pub closed spec fn cell(&self, r: int, c: int) -> Option<Tile> {
        self.cells@[r]@[c]
    }

    pub open spec fn occupied(&self, r: int, c: int) -> bool {
        self.cell(r, c) is Some
    }

    /// Cell `k` of line `l`: along row `l` when `across`, else along column `l`.
    pub open spec fn line_occ(&self, across: bool, l: int, k: int) -> bool {
        if across {
            self.occupied(l, k)
        } else {
            self.occupied(k, l)
        }
    }

    /// Number of consecutive occupied cells just before position `k` of line `l`.
    pub open spec fn run_before(&self, across: bool, l: int, k: int) -> nat
        decreases k,
    {
        if k <= 0 {
            0
        } else if !self.line_occ(across, l, k - 1) {
            0
        } else {
            1 + self.run_before(across, l, k - 1)
        }
    }

    /// Number of consecutive occupied cells just after position `k` of line `l`.
    pub open spec fn run_after(&self, across: bool, l: int, k: int) -> nat
        decreases 4 - k,
    {
        if k >= 4 {
            0
        } else if !self.line_occ(across, l, k + 1) {
            0
        } else {
            1 + self.run_after(across, l, k + 1)
        }
    }

    /// Points from one line for a tile placed at position `k` of line `l`:
    /// the length of the run it joins, or 0 when it joins none.
    pub open spec fn line_score(&self, across: bool, l: int, k: int) -> nat {
        let n = self.run_before(across, l, k) + self.run_after(across, l, k);
        if n > 0 {
            n + 1
        } else {
            0
        }
    }

    /// Points for a tile placed at row `r`, column `c`: the row run plus the
    /// column run, and at least 1.
    pub open spec fn placement_score(&self, r: int, c: int) -> nat {
        let s = self.line_score(true, r, c) + self.line_score(false, c, r);
        if s == 0 {
            1
        } else {
            s
        }
    }

    /// Number of occupied cells among the first `k` of line `l`.
    pub open spec fn line_count(&self, across: bool, l: int, k: int) -> nat
        decreases k,
    {
        if k <= 0 {
            0
        } else {
            self.line_count(across, l, k - 1) + ind(self.line_occ(across, l, k - 1))
        }
    }

    pub open spec fn row_full(&self, r: int) -> bool {
        &&& self.occupied(r, 0)
        &&& self.occupied(r, 1)
        &&& self.occupied(r, 2)
        &&& self.occupied(r, 3)
        &&& self.occupied(r, 4)
    }

    pub open spec fn column_full(&self, c: int) -> bool {
        &&& self.occupied(0, c)
        &&& self.occupied(1, c)
        &&& self.occupied(2, c)
        &&& self.occupied(3, c)
        &&& self.occupied(4, c)
    }

    /// All five cells of colour `t` are occupied.
    pub open spec fn colour_full(&self, t: Tile) -> bool {
        &&& self.occupied(0, column_of(0, t))
        &&& self.occupied(1, column_of(1, t))
        &&& self.occupied(2, column_of(2, t))
        &&& self.occupied(3, column_of(3, t))
        &&& self.occupied(4, column_of(4, t))
    }

    pub open spec fn full_rows(&self) -> nat {
        ind(self.row_full(0)) + ind(self.row_full(1)) + ind(self.row_full(2)) + ind(
            self.row_full(3),
        ) + ind(self.row_full(4))
    }

    pub open spec fn full_columns(&self) -> nat {
        ind(self.column_full(0)) + ind(self.column_full(1)) + ind(self.column_full(2)) + ind(
            self.column_full(3),
        ) + ind(self.column_full(4))
    }

    pub open spec fn full_colours(&self) -> nat {
        ind(self.colour_full(Tile::Blue)) + ind(self.colour_full(Tile::Yellow)) + ind(
            self.colour_full(Tile::Red),
        ) + ind(self.colour_full(Tile::Black)) + ind(self.colour_full(Tile::White))
    }

    /// End-of-game bonus: 2 per full row, 7 per full column, 10 per full colour.
    pub open spec fn bonus(&self) -> nat {
        2 * self.full_rows() + 7 * self.full_columns() + 10 * self.full_colours()
    }

    pub open spec fn has_full_row_spec(&self) -> bool {
        exists|r: int| 0 <= r < 5 && self.row_full(r)
    }

    /// Number of occupied cells.
    pub open spec fn tile_total(&self) -> nat {
        self.line_count(true, 0, 5) + self.line_count(true, 1, 5) + self.line_count(true, 2, 5)
            + self.line_count(true, 3, 5) + self.line_count(true, 4, 5)
    }

    /// Sum over rows and columns of `tri` of their occupied counts: a bound on
    /// the points that placements on this wall can have earned.
    pub open spec fn score_bound(&self) -> int {
        tri(self.line_count(true, 0, 5) as int) + tri(self.line_count(true, 1, 5) as int) + tri(
            self.line_count(true, 2, 5) as int,
        ) + tri(self.line_count(true, 3, 5) as int) + tri(self.line_count(true, 4, 5) as int)
            + tri(self.line_count(false, 0, 5) as int) + tri(self.line_count(false, 1, 5) as int)
            + tri(self.line_count(false, 2, 5) as int) + tri(self.line_count(false, 3, 5) as int)
            + tri(self.line_count(false, 4, 5) as int)
    }

    /// `self` is `old` with tile `t` written at row `r`, column `c`.
    pub open spec fn placed(&self, old: Wall, r: int, c: int, t: Tile) -> bool {
        &&& self.cell(r, c) == Some(t)
        &&& forall|i: int, j: int|
            0 <= i < 5 && 0 <= j < 5 && (i != r || j != c) ==> #[trigger] self.cell(i, j) == old.cell(
                i,
                j,
            )
    }

    /// The wall with tile `t` written at row `r`, column `c`.
    pub closed spec fn with_tile(&self, r: int, c: int, t: Tile) -> Wall {
        Wall {
            cells: vstd::array::spec_array_update(
                self.cells,
                r,
                vstd::array::spec_array_update(self.cells@[r], c, Some(t)),
            ),
        }
    }

    pub open spec fn is_empty_wall(&self) -> bool {
        forall|i: int, j: int| 0 <= i < 5 && 0 <= j < 5 ==> !#[trigger] self.occupied(i, j)
    }

    /// A wall with no tile on it.
    pub fn new() -> (w: Wall)
        ensures
            w.is_empty_wall(),
    {
        Wall { cells: [[None, None, None, None, None]; 5] }
    }

    /// Content of one cell.
    pub fn get(&self, row: RowIndex, col: ColumnIndex) -> (r: Option<Tile>)
        ensures
            r == self.cell(row.index(), col.index()),
    {
        self.cells[row.ordinal()][col.ordinal()]
    }

    /// Whether the cell of colour `tile` in row `row` is still free.
    pub fn cell_available(&self, row: RowIndex, tile: &Tile) -> (r: bool)
        ensures
            r == !self.occupied(row.index(), column_of(row.index(), *tile)),
    {
        let c = row.tile_column(tile).ordinal();
        self.cells[row.ordinal()][c].is_none()
    }

    /// Place a tile in its cell of row `row`.
    pub fn place_tile(&mut self, row: RowIndex, tile: Tile)
        ensures
            *final(self) == old(self).with_tile(row.index(), column_of(row.index(), tile), tile),
            final(self).placed(*old(self), row.index(), column_of(row.index(), tile), tile),
    {
        let r = row.ordinal();
        let c = row.tile_column(&tile).ordinal();
        let ghost old_line = self.cells@[r as int];
        let mut line = self.cells[r];
        line[c] = Some(tile);
        assert(line@ =~= old_line@.update(c as int, Some(tile)));
        self.cells[r] = line;
        assert(self.cells@ =~= old(self).cells@.update(r as int, line));
        proof {
            assert forall|i: int, j: int|
                0 <= i < 5 && 0 <= j < 5 && (i != r || j != c) implies #[trigger] self.cell(i, j)
                == old(self).cell(i, j) by {
                if i == r {
                    assert(self.cells@[i]@ == line@);
                    assert(line@[j] == old_line@[j]);
                } else {
                    assert(self.cells@[i] == old(self).cells@[i]);
                }
            }
            let w = old(self).with_tile(r as int, c as int, tile);
            assert(w.cells@[r as int]@ == line@);
            assert(w.cells[r as int] =~= line);
            assert(self.cells =~= w.cells);
        }
    }

    fn occupied_at(&self, r: usize, c: usize) -> (b: bool)
        requires
            r < 5,
            c < 5,
        ensures
            b == self.occupied(r as int, c as int),
    {
        self.cells[r][c].is_some()
    }

    fn line_occupied_at(&self, across: bool, l: usize, k: usize) -> (b: bool)
        requires
            l < 5,
            k < 5,
        ensures
            b == self.line_occ(across, l as int, k as int),
    {
        if across {
            self.occupied_at(l, k)
        } else {
            self.occupied_at(k, l)
        }
    }

    /// Length of the run of occupied cells just before position `k` of line `l`.
    fn run_back(&self, across: bool, l: usize, k: usize) -> (n: u8)
        requires
            l < 5,
            k < 5,
        ensures
            n == self.run_before(across, l as int, k as int),
            n <= k,
    {
        let mut n: u8 = 0;
        let mut i: usize = k;
        let mut go = if i > 0 { self.line_occupied_at(across, l, i - 1) } else { false };
        while go
            invariant
                go == (i > 0 && self.line_occ(across, l as int, i - 1)),
                i <= k < 5,
                l < 5,
                n + self.run_before(across, l as int, i as int) == self.run_before(across, l as int, k as int),
                n + i == k,
            decreases i,
        {
            n = n + 1;
            i = i - 1;
            go = if i > 0 { self.line_occupied_at(across, l, i - 1) } else { false };
        }
        n
    }

    /// Length of the run of occupied cells just after position `k` of line `l`.
    fn run_forward(&self, across: bool, l: usize, k: usize) -> (n: u8)
        requires
            l < 5,
            k < 5,
        ensures
            n == self.run_after(across, l as int, k as int),
            n + k <= 4,
    {
        let mut n: u8 = 0;
        let mut i: usize = k;
        let mut go = if i < 4 { self.line_occupied_at(across, l, i + 1) } else { false };
        while go
            invariant
                go == (i < 4 && self.line_occ(across, l as int, i + 1)),
                k <= i < 5,
                l < 5,
                n + self.run_after(across, l as int, i as int) == self.run_after(across, l as int, k as int),
                n + k == i,
            decreases 4 - i,
        {
            n = n + 1;
            i = i + 1;
            go = if i < 4 { self.line_occupied_at(across, l, i + 1) } else { false };
        }
        n
    }

    /// Points that placing `tile` in row `row` scores against the current wall.
    pub fn score_tile(&self, row: RowIndex, tile: Tile) -> (s: u8)
        ensures
            s == self.placement_score(row.index(), column_of(row.index(), tile)),
    {
        let r = row.ordinal();
        let c = row.tile_column(&tile).ordinal();
        let vertical = self.run_back(false, c, r) + self.run_forward(false, c, r);
        let horizontal = self.run_back(true, r, c) + self.run_forward(true, r, c);
        let col_score: u8 = if vertical > 0 {
            vertical + 1
        } else {
            0
        };
        let row_score: u8 = if horizontal > 0 {
            horizontal + 1
        } else {
            0
        };
        if col_score + row_score == 0 {
            1
        } else {
            col_score + row_score
        }
    }

    fn row_is_full(&self, r: usize) -> (b: bool)
        requires
            r < 5,
        ensures
            b == self.row_full(r as int),
    {
        self.occupied_at(r, 0) && self.occupied_at(r, 1) && self.occupied_at(r, 2)
            && self.occupied_at(r, 3) && self.occupied_at(r, 4)
    }

    fn column_is_full(&self, c: usize) -> (b: bool)
        requires
            c < 5,
        ensures
            b == self.column_full(c as int),
    {
        self.occupied_at(0, c) && self.occupied_at(1, c) && self.occupied_at(2, c)
            && self.occupied_at(3, c) && self.occupied_at(4, c)
    }

    fn colour_is_full(&self, t: Tile) -> (b: bool)
        ensures
            b == self.colour_full(t),
    {
        let mut r: usize = 0;
        while r < 5
            invariant
                r <= 5,
                forall|i: int| 0 <= i < r ==> self.occupied(i, column_of(i, t)),
            decreases 5 - r,
        {
            let c = RowIndex::from_index(r).tile_column(&t).ordinal();
            if !self.occupied_at(r, c) {
                return false;
            }
            r = r + 1;
        }
        true
    }

    fn count_full_rows(&self) -> (n: u8)
        ensures
            n == self.full_rows(),
    {
        let a: u8 = if self.row_is_full(0) { 1 } else { 0 };
        let b: u8 = if self.row_is_full(1) { 1 } else { 0 };
        let c: u8 = if self.row_is_full(2) { 1 } else { 0 };
        let d: u8 = if self.row_is_full(3) { 1 } else { 0 };
        let e: u8 = if self.row_is_full(4) { 1 } else { 0 };
        a + b + c + d + e
    }

    fn count_full_columns(&self) -> (n: u8)
        ensures
            n == self.full_columns(),
    {
        let a: u8 = if self.column_is_full(0) { 1 } else { 0 };
        let b: u8 = if self.column_is_full(1) { 1 } else { 0 };
        let c: u8 = if self.column_is_full(2) { 1 } else { 0 };
        let d: u8 = if self.column_is_full(3) { 1 } else { 0 };
        let e: u8 = if self.column_is_full(4) { 1 } else { 0 };
        a + b + c + d + e
    }

    fn count_full_colours(&self) -> (n: u8)
        ensures
            n == self.full_colours(),
    {
        let a: u8 = if self.colour_is_full(Tile::Blue) { 1 } else { 0 };
        let b: u8 = if self.colour_is_full(Tile::Yellow) { 1 } else { 0 };
        let c: u8 = if self.colour_is_full(Tile::Red) { 1 } else { 0 };
        let d: u8 = if self.colour_is_full(Tile::Black) { 1 } else { 0 };
        let e: u8 = if self.colour_is_full(Tile::White) { 1 } else { 0 };
        a + b + c + d + e
    }

    /// Score of the wall: 2 per full row, 7 per full column and 10 per colour
    /// whose five cells are all occupied.
    pub fn score(&self) -> (s: u8)
        ensures
            s == self.bonus(),
    {
        let rows = self.count_full_rows();
        let cols = self.count_full_columns();
        let colours = self.count_full_colours();
        2 * rows + 7 * cols + 10 * colours
    }

    /// Whether some row of the wall is full: the end-of-game trigger.
    pub fn has_full_row(&self) -> (b: bool)
        ensures
            b == self.has_full_row_spec(),
    {
        let mut r: usize = 0;
        while r < 5
            invariant
                r <= 5,
                forall|i: int| 0 <= i < r ==> !self.row_full(i),
            decreases 5 - r,
        {
            if self.row_is_full(r) {
                return true;
            }
            r = r + 1;
        }
        false
    }

    fn row_tile_count(&self, r: usize) -> (n: u8)
        requires
            r < 5,
        ensures
            n == self.line_count(true, r as int, 5),
    {
        let mut n: u8 = 0;
        let mut c: usize = 0;
        while c < 5
            invariant
                r < 5,
                c <= 5,
                n == self.line_count(true, r as int, c as int),
                n <= c,
            decreases 5 - c,
        {
            if self.occupied_at(r, c) {
                n = n + 1;
            }
            c = c + 1;
        }
        n
    }

    /// Number of tiles on the wall.
    pub fn tile_count(&self) -> (n: u8)
        ensures
            n == self.tile_total(),
    {
        proof {
            lemma_line_count_le(*self, true, 0, 5);
            lemma_line_count_le(*self, true, 1, 5);
            lemma_line_count_le(*self, true, 2, 5);
            lemma_line_count_le(*self, true, 3, 5);
            lemma_line_count_le(*self, true, 4, 5);
        }
        self.row_tile_count(0) + self.row_tile_count(1) + self.row_tile_count(2)
            + self.row_tile_count(3) + self.row_tile_count(4)
    }
}

impl Default for Wall {
    fn default() -> (w: Wall)
        ensures
            w.is_empty_wall(),
    {
        Wall::new()
    }
}

/// Writing a tile into a cell changes that cell alone.
pub proof fn lemma_with_tile(w: Wall, r: int, c: int, t: Tile)
    requires
        0 <= r < 5,
        0 <= c < 5,
    ensures
        w.with_tile(r, c, t).placed(w, r, c, t),
{
    let w2 = w.with_tile(r, c, t);
    assert(w2.cells@ == w.cells@.update(r, vstd::array::spec_array_update(w.cells@[r], c, Some(t))));
    assert forall|i: int, j: int|
        0 <= i < 5 && 0 <= j < 5 && (i != r || j != c) implies #[trigger] w2.cell(i, j) == w.cell(
        i,
        j,
    ) by {
        if i == r {
            assert(w2.cells@[i]@ == w.cells@[r]@.update(c, Some(t)));
        }
    }
    assert(w2.cells@[r]@ == w.cells@[r]@.update(c, Some(t)));
}

/// An empty wall holds no tile and bounds no points.
pub proof fn lemma_empty_wall_totals(w: Wall)
    requires
        w.is_empty_wall(),
    ensures
        w.tile_total() == 0,
        w.score_bound() == 0,
{
    reveal_with_fuel(Wall::line_count, 6);
    assert(!w.occupied(0, 0) && !w.occupied(0, 1) && !w.occupied(0, 2) && !w.occupied(0, 3) && !w.occupied(0, 4));
    assert(!w.occupied(1, 0) && !w.occupied(1, 1) && !w.occupied(1, 2) && !w.occupied(1, 3) && !w.occupied(1, 4));
    assert(!w.occupied(2, 0) && !w.occupied(2, 1) && !w.occupied(2, 2) && !w.occupied(2, 3) && !w.occupied(2, 4));
    assert(!w.occupied(3, 0) && !w.occupied(3, 1) && !w.occupied(3, 2) && !w.occupied(3, 3) && !w.occupied(3, 4));
    assert(!w.occupied(4, 0) && !w.occupied(4, 1) && !w.occupied(4, 2) && !w.occupied(4, 3) && !w.occupied(4, 4));
}

/// On an empty wall every placement scores exactly one point.
pub proof fn lemma_single_tile_scores_one(w: Wall, r: int, c: int)
    requires
        w.is_empty_wall(),
        0 <= r < 5,
        0 <= c < 5,
    ensures
        w.placement_score(r, c) == 1,
{
    if r > 0 {
        assert(!w.occupied(r - 1, c));
    }
    if r < 4 {
        assert(!w.occupied(r + 1, c));
    }
    if c > 0 {
        assert(!w.occupied(r, c - 1));
    }
    if c < 4 {
        assert(!w.occupied(r, c + 1));
    }
}

/// Whether position `k` of line `l` is the cell at row `r`, column `c`.
pub open spec fn on_cell(across: bool, l: int, k: int, r: int, c: int) -> bool {
    if across {
        l == r && k == c
    } else {
        l == c && k == r
    }
}

/// Placing a tile on a free cell adds one to the counts of exactly the lines
/// through that cell.
pub proof fn lemma_place_line_count(
    w2: Wall,
    w: Wall,
    r: int,
    c: int,
    t: Tile,
    across: bool,
    l: int,
    k: int,
)
    requires
        w2.placed(w, r, c, t),
        !w.occupied(r, c),
        0 <= r < 5,
        0 <= c < 5,
        0 <= l < 5,
        0 <= k <= 5,
    ensures
        w2.line_count(across, l, k) == w.line_count(across, l, k) + ind(
            exists|j: int| 0 <= j < k && on_cell(across, l, j, r, c),
        ),
    decreases k,
{
    if k > 0 {
        lemma_place_line_count(w2, w, r, c, t, across, l, k - 1);
        if on_cell(across, l, k - 1, r, c) {
            assert(exists|j: int| 0 <= j < k && on_cell(across, l, j, r, c));
            assert(!exists|j: int| 0 <= j < k - 1 && on_cell(across, l, j, r, c));
        } else {
            if exists|j: int| 0 <= j < k && on_cell(across, l, j, r, c) {
                let j = choose|j: int| 0 <= j < k && on_cell(across, l, j, r, c);
                assert(0 <= j < k - 1);
            }
            if across {
                assert(w2.cell(l, k - 1) == w.cell(l, k - 1));
            } else {
                assert(w2.cell(k - 1, l) == w.cell(k - 1, l));
            }
        }
    }
}

/// Placing a tile on a free cell: the wall holds one more tile, and the
/// score bound grows by the lengths of its row and column counted with it.
pub proof fn lemma_place_totals(w2: Wall, w: Wall, r: int, c: int, t: Tile)
    requires
        w2.placed(w, r, c, t),
        !w.occupied(r, c),
        0 <= r < 5,
        0 <= c < 5,
    ensures
        w2.tile_total() == w.tile_total() + 1,
        w2.score_bound() == w.score_bound() + w.line_count(true, r, 5) + 1 + w.line_count(
            false,
            c,
            5,
        ) + 1,
        w2.line_count(true, r, 5) == w.line_count(true, r, 5) + 1,
{
    assert forall|across: bool, l: int| 0 <= l < 5 implies #[trigger] w2.line_count(across, l, 5)
        == w.line_count(across, l, 5) + ind(if across { l == r } else { l == c }) by {
        lemma_place_line_count(w2, w, r, c, t, across, l, 5);
        if across && l == r {
            assert(on_cell(across, l, c, r, c));
        }
        if !across && l == c {
            assert(on_cell(across, l, r, r, c));
        }
    }
    assert(w2.line_count(true, 0, 5) == w.line_count(true, 0, 5) + ind(0 == r));
    assert(w2.line_count(true, 1, 5) == w.line_count(true, 1, 5) + ind(1 == r));
    assert(w2.line_count(true, 2, 5) == w.line_count(true, 2, 5) + ind(2 == r));
    assert(w2.line_count(true, 3, 5) == w.line_count(true, 3, 5) + ind(3 == r));
    assert(w2.line_count(true, 4, 5) == w.line_count(true, 4, 5) + ind(4 == r));
    assert(w2.line_count(false, 0, 5) == w.line_count(false, 0, 5) + ind(0 == c));
    assert(w2.line_count(false, 1, 5) == w.line_count(false, 1, 5) + ind(1 == c));
    assert(w2.line_count(false, 2, 5) == w.line_count(false, 2, 5) + ind(2 == c));
    assert(w2.line_count(false, 3, 5) == w.line_count(false, 3, 5) + ind(3 == c));
    assert(w2.line_count(false, 4, 5) == w.line_count(false, 4, 5) + ind(4 == c));
    let a = w.line_count(true, r, 5) as int;
    let b = w.line_count(false, c, 5) as int;
    assert(tri(a + 1) == tri(a) + a + 1);
    assert(tri(b + 1) == tri(b) + b + 1);
}

/// A run ending just before position `k` lies among the first `k` cells.
proof fn lemma_run_before_le(w: Wall, across: bool, l: int, k: int)
    requires
        0 <= k <= 5,
    ensures
        w.run_before(across, l, k) <= w.line_count(across, l, k),
    decreases k,
{
    if k > 0 {
        lemma_run_before_le(w, across, l, k - 1);
    }
}

/// A run starting just after position `k` lies among the cells after it.
proof fn lemma_run_after_le(w: Wall, across: bool, l: int, k: int)
    requires
        0 <= k < 5,
    ensures
        w.run_after(across, l, k) + w.line_count(across, l, k + 1) <= w.line_count(across, l, 5),
    decreases 4 - k,
{
    if k < 4 {
        lemma_run_after_le(w, across, l, k + 1);
        lemma_line_count_mono(w, across, l, k + 2, 5);
    }
}

proof fn lemma_line_count_mono(w: Wall, across: bool, l: int, j: int, k: int)
    requires
        0 <= j <= k,
    ensures
        w.line_count(across, l, j) <= w.line_count(across, l, k),
    decreases k - j,
{
    if j < k {
        lemma_line_count_mono(w, across, l, j, k - 1);
    }
}

/// A placement on a free cell scores at most the row count plus the column
/// count, each with the new tile.
pub proof fn lemma_placement_score_le(w: Wall, r: int, c: int)
    requires
        !w.occupied(r, c),
        0 <= r < 5,
        0 <= c < 5,
    ensures
        w.placement_score(r, c) <= w.line_count(true, r, 5) + 1 + w.line_count(false, c, 5) + 1,
        w.placement_score(r, c) <= 10,
{
    lemma_run_before_le(w, true, r, c);
    lemma_run_after_le(w, true, r, c);
    lemma_run_before_le(w, false, c, r);
    lemma_run_after_le(w, false, c, r);
    assert(w.line_count(true, r, c + 1) == w.line_count(true, r, c));
    assert(w.line_count(false, c, r + 1) == w.line_count(false, c, r));
    lemma_line_count_le(w, true, r, c);
    lemma_line_count_le(w, false, c, r);
    lemma_run_after_short(w, true, r, c);
    lemma_run_after_short(w, false, c, r);
}

proof fn lemma_run_after_short(w: Wall, across: bool, l: int, k: int)
    requires
        0 <= k < 5,
    ensures
        w.run_after(across, l, k) <= 4 - k,
    decreases 4 - k,
{
    if k < 4 {
        lemma_run_after_short(w, across, l, k + 1);
    }
}

/// The bonus of any wall fits well below the range of a `u8`.
pub proof fn lemma_bonus_le(w: Wall)
    ensures
        w.bonus() <= 95,
{
}

/// The score bound of any wall is at most 150.
pub proof fn lemma_score_bound_le(w: Wall)
    ensures
        0 <= w.score_bound() <= 150,
{
    lemma_tri_le(w.line_count(true, 0, 5) as int);
    lemma_tri_le(w.line_count(true, 1, 5) as int);
    lemma_tri_le(w.line_count(true, 2, 5) as int);
    lemma_tri_le(w.line_count(true, 3, 5) as int);
    lemma_tri_le(w.line_count(true, 4, 5) as int);
    lemma_tri_le(w.line_count(false, 0, 5) as int);
    lemma_tri_le(w.line_count(false, 1, 5) as int);
    lemma_tri_le(w.line_count(false, 2, 5) as int);
    lemma_tri_le(w.line_count(false, 3, 5) as int);
    lemma_tri_le(w.line_count(false, 4, 5) as int);
    lemma_line_count_le(w, true, 0, 5);
    lemma_line_count_le(w, true, 1, 5);
    lemma_line_count_le(w, true, 2, 5);
    lemma_line_count_le(w, true, 3, 5);
    lemma_line_count_le(w, true, 4, 5);
    lemma_line_count_le(w, false, 0, 5);
    lemma_line_count_le(w, false, 1, 5);
    lemma_line_count_le(w, false, 2, 5);
    lemma_line_count_le(w, false, 3, 5);
    lemma_line_count_le(w, false, 4, 5);
}

proof fn lemma_tri_le(n: int)
    requires
        0 <= n,
    ensures
        0 <= tri(n),
        n <= 5 ==> tri(n) <= 15,
    decreases n,
{
    reveal_with_fuel(tri, 6);
    if n > 0 {
        lemma_tri_le(n - 1);
    }
}

pub proof fn lemma_line_count_le(w: Wall, across: bool, l: int, k: int)
    requires
        0 <= k,
    ensures
        w.line_count(across, l, k) <= k,
    decreases k,
{
    if k > 0 {
        lemma_line_count_le(w, across, l, k - 1);
    }
}

} // verus!
