//! Tile colours and multisets of tiles (the bag, a display, the centre pool, a floor).

use vstd::prelude::*;

verus! {

/// Types of tiles, in the order in which they appear on the first row of the wall.
#[derive(Debug, Clone, Copy, PartialEq, Eq, Structural)]
pub enum Tile {
    Blue,
    Yellow,
    Red,
    Black,
    White,
}

/// The colour with the given ordinal.
pub open spec fn tile_of(i: int) -> Tile {
    if i == 0 {
        Tile::Blue
    } else if i == 1 {
        Tile::Yellow
    } else if i == 2 {
        Tile::Red
    } else if i == 3 {
        Tile::Black
    } else {
        Tile::White
    }
}

impl Tile {
    /// Ordinal of the colour, from 0 to 4.
    pub open spec fn index(self) -> int {
        match self {
            Tile::Blue => 0,
            Tile::Yellow => 1,
            Tile::Red => 2,
            Tile::Black => 3,
            Tile::White => 4,
        }
    }

    pub fn ordinal(&self) -> (r: u8)
        ensures
            r == self.index(),
    {
        match self {
            Tile::Blue => 0,
            Tile::Yellow => 1,
            Tile::Red => 2,
            Tile::Black => 3,
            Tile::White => 4,
        }
    }

    pub fn from_index(i: u8) -> (t: Tile)
        requires
            i < 5,
        ensures
            t.index() == i,
            t == tile_of(i as int),
    {
        if i == 0 {
            Tile::Blue
        } else if i == 1 {
            Tile::Yellow
        } else if i == 2 {
            Tile::Red
        } else if i == 3 {
            Tile::Black
        } else {
            Tile::White
        }
    }
}

pub proof fn lemma_tile_of_index(t: Tile)
    ensures
        0 <= t.index() < 5,
        tile_of(t.index()) == t,
{
}

/// A multiset of tiles: one count per colour.
#[derive(Debug, Clone, Copy, PartialEq, Eq)]
pub struct TileGroup {
    counts: [u8; 5],
}

impl TileGroup {
    /// How many tiles of colour `t` the group holds.
    pub closed spec fn count(&self, t: Tile) -> nat {
        self.counts@[t.index()] as nat
    }

    /// Number of tiles in the group.
    pub open spec fn size(&self) -> nat {
        self.count(Tile::Blue) + self.count(Tile::Yellow) + self.count(Tile::Red) + self.count(
            Tile::Black,
        ) + self.count(Tile::White)
    }

    /// `self` is `old` with `n` more tiles of colour `t`.
    pub open spec fn added(&self, old: TileGroup, t: Tile, n: nat) -> bool {
        &&& self.count(t) == old.count(t) + n
        &&& forall|u: Tile| u != t ==> #[trigger] self.count(u) == old.count(u)
    }

    /// `self` is `old` with every tile of colour `t` removed.
    pub open spec fn without(&self, old: TileGroup, t: Tile) -> bool {
        &&& self.count(t) == 0
        &&& forall|u: Tile| u != t ==> #[trigger] self.count(u) == old.count(u)
    }

    /// `self` is the union of `a` and `b`.
    pub open spec fn union_of(&self, a: TileGroup, b: TileGroup) -> bool {
        forall|u: Tile| #[trigger] self.count(u) == a.count(u) + b.count(u)
    }

    /// The colour at position `n` of the group laid out in colour order.
    pub open spec fn nth_tile(&self, n: int) -> Tile {
        let c0 = self.count(Tile::Blue) as int;
        let c1 = c0 + self.count(Tile::Yellow);
        let c2 = c1 + self.count(Tile::Red);
        let c3 = c2 + self.count(Tile::Black);
        if n < c0 {
            Tile::Blue
        } else if n < c1 {
            Tile::Yellow
        } else if n < c2 {
            Tile::Red
        } else if n < c3 {
            Tile::Black
        } else {
            Tile::White
        }
    }

    /// The tiles of the first `k` colours laid out in colour order.
    pub open spec fn layout_upto(&self, k: int) -> Seq<Tile>
        decreases k,
    {
        if k <= 0 {
            Seq::empty()
        } else {
            self.layout_upto(k - 1) + Seq::new(
                self.count(tile_of(k - 1)),
                |i: int| tile_of(k - 1),
            )
        }
    }

    /// Every tile of the group, laid out in colour order.
    pub open spec fn layout(&self) -> Seq<Tile> {
        self.layout_upto(5)
    }

    /// Create a full bag: twenty tiles of each colour.
    pub fn new_bag() -> (r: Self)
        ensures
            forall|t: Tile| #[trigger] r.count(t) == 20,
            r.size() == 100,
    {
        Self { counts: [20, 20, 20, 20, 20] }
    }

    /// Create an empty group, as the centre starts a round.
    pub fn new_empty() -> (r: Self)
        ensures
            forall|t: Tile| #[trigger] r.count(t) == 0,
            r.size() == 0,
    {
        Self { counts: [0, 0, 0, 0, 0] }
    }

    /// Empty the group and return the tiles it held.
    pub fn empty(&mut self) -> (r: Self)
        ensures
            r == *old(self),
            forall|t: Tile| #[trigger] final(self).count(t) == 0,
            final(self).size() == 0,
    {
        let r = *self;
        self.counts = [0, 0, 0, 0, 0];
        r
    }

    /// Total number of tiles in the group.
    pub fn total(&self) -> (r: u8)
        requires
            self.size() <= 255,
        ensures
            r == self.size(),
    {
        self.counts[0] + self.counts[1] + self.counts[2] + self.counts[3] + self.counts[4]
    }

    /// How many tiles of colour `tile` the group holds.
    pub fn tile_count(&self, tile: Tile) -> (r: u8)
        ensures
            r == self.count(tile),
    {
        self.counts[tile.ordinal() as usize]
    }

    /// Take all tiles of one colour from the group; returns how many there were.
    pub fn take_tile(&mut self, tile: Tile) -> (r: u8)
        ensures
            r == old(self).count(tile),
            final(self).without(*old(self), tile),
            final(self).size() == old(self).size() - r,
    {
        let i = tile.ordinal() as usize;
        let count = self.counts[i];
        self.counts[i] = 0;
        count
    }

    /// Remove and return the tile at position `n` of the group laid out in
    /// colour order.
    pub fn take_nth(&mut self, n: u8) -> (r: Tile)
        requires
            n < old(self).size(),
        ensures
            r == old(self).nth_tile(n as int),
            old(self).count(r) > 0,
            old(self).added(*final(self), r, 1),
            final(self).size() == old(self).size() - 1,
    {
        let n = n as u16;
        let c0 = self.counts[0] as u16;
        let c1 = c0 + self.counts[1] as u16;
        let c2 = c1 + self.counts[2] as u16;
        let c3 = c2 + self.counts[3] as u16;
        let i: usize = if n < c0 {
            0
        } else if n < c1 {
            1
        } else if n < c2 {
            2
        } else if n < c3 {
            3
        } else {
            4
        };
        self.counts[i] = self.counts[i] - 1;
        Tile::from_index(i as u8)
    }

    /// Draw one tile, each tile of the group equally likely; `None` when the
    /// group is empty.
    pub fn random_tile(&mut self, rng: &mut rand::rngs::SmallRng) -> (r: Option<Tile>)
        requires
            old(self).size() <= 255,
        ensures
            r is None <==> old(self).size() == 0,
            r is None ==> *final(self) == *old(self),
            r matches Some(t) ==> {
                &&& old(self).count(t) > 0
                &&& old(self).added(*final(self), t, 1)
                &&& final(self).size() == old(self).size() - 1
            },
    {
        let total = self.total();
        if total == 0 {
            return None;
        }
        let n = crate::rng::random_index(rng, total as usize) as u8;
        Some(self.take_nth(n))
    }

    /// Add one tile to the group.
    pub fn add_tile(&mut self, tile: Tile)
        requires
            old(self).count(tile) < 255,
        ensures
            final(self).added(*old(self), tile, 1),
            final(self).size() == old(self).size() + 1,
    {
        let i = tile.ordinal() as usize;
        self.counts[i] = self.counts[i] + 1;
    }

    /// Add `count` tiles of one colour to the group.
    pub fn add_tiles(&mut self, tile: Tile, count: u8)
        requires
            old(self).count(tile) + count <= 255,
        ensures
            final(self).added(*old(self), tile, count as nat),
            final(self).size() == old(self).size() + count,
    {
        let i = tile.ordinal() as usize;
        self.counts[i] = self.counts[i] + count;
    }

    /// Add every tile of `other` to the group.
    pub fn merge(&mut self, other: &TileGroup)
        requires
            forall|t: Tile| old(self).count(t) + other.count(t) <= 255,
        ensures
            final(self).union_of(*old(self), *other),
            final(self).size() == old(self).size() + other.size(),
    {
        proof {
            assert(old(self).count(Tile::Blue) + other.count(Tile::Blue) <= 255);
            assert(old(self).count(Tile::Yellow) + other.count(Tile::Yellow) <= 255);
            assert(old(self).count(Tile::Red) + other.count(Tile::Red) <= 255);
            assert(old(self).count(Tile::Black) + other.count(Tile::Black) <= 255);
            assert(old(self).count(Tile::White) + other.count(Tile::White) <= 255);
        }
        self.counts = [
            self.counts[0] + other.counts[0],
            self.counts[1] + other.counts[1],
            self.counts[2] + other.counts[2],
            self.counts[3] + other.counts[3],
            self.counts[4] + other.counts[4],
        ];
    }

    /// Every tile of the group as a list, in colour order.
    pub fn tile_vec(&self) -> (r: Vec<Tile>)
        ensures
            r@ == self.layout(),
    {
        let mut v: Vec<Tile> = Vec::new();
        let mut k: usize = 0;
        while k < 5
            invariant
                k <= 5,
                v@ == self.layout_upto(k as int),
            decreases 5 - k,
        {
            let t = Tile::from_index(k as u8);
            let c = self.counts[k];
            let mut j: u8 = 0;
            while j < c
                invariant
                    k < 5,
                    t == tile_of(k as int),
                    c == self.count(t),
                    j <= c,
                    v@ == self.layout_upto(k as int) + Seq::new(j as nat, |i: int| t),
                decreases c - j,
            {
                v.push(t);
                j = j + 1;
                proof {
                    assert(v@ =~= self.layout_upto(k as int) + Seq::new(j as nat, |i: int| t));
                }
            }
            k = k + 1;
            proof {
                assert(v@ =~= self.layout_upto(k as int));
            }
        }
        v
    }
}

/// Two groups with the same count of every colour are equal.
pub proof fn lemma_group_ext(a: TileGroup, b: TileGroup)
    requires
        forall|t: Tile| #[trigger] a.count(t) == b.count(t),
    ensures
        a == b,
{
    assert(a.count(tile_of(0)) == b.count(tile_of(0)));
    assert(a.count(tile_of(1)) == b.count(tile_of(1)));
    assert(a.count(tile_of(2)) == b.count(tile_of(2)));
    assert(a.count(tile_of(3)) == b.count(tile_of(3)));
    assert(a.count(tile_of(4)) == b.count(tile_of(4)));
    assert(a.counts =~= b.counts);
}

} // verus!
