//! The game: player boards, bag, factory displays and centre, turn order, the
//! first-player token and the round/game state machine.

use vstd::prelude::*;
use crate::tiles::{Tile, TileGroup, lemma_tile_of_index};
use crate::wall::{RowIndex, ind};
use crate::playerboard::{
    PlayerBoard,
    clamp_sub,
    floor_penalty,
    lemma_placement_result_predicted,
    lemma_board_capacity,
};

verus! {

/// Sum of a sequence of integers.
pub open spec fn seq_sum(s: Seq<int>) -> int
    decreases s.len(),
{
    if s.len() == 0 {
        0
    } else {
        seq_sum(s.drop_last()) + s.last()
    }
}

proof fn lemma_seq_sum_update(s: Seq<int>, i: int, v: int)
    requires
        0 <= i < s.len(),
    ensures
        seq_sum(s.update(i, v)) == seq_sum(s) - s[i] + v,
    decreases s.len(),
{
    if i == s.len() - 1 {
        assert(s.update(i, v).drop_last() =~= s.drop_last());
    } else {
        lemma_seq_sum_update(s.drop_last(), i, v);
        assert(s.update(i, v).drop_last() =~= s.drop_last().update(i, v));
    }
}

proof fn lemma_seq_sum_le(s: Seq<int>, i: int)
    requires
        forall|j: int| 0 <= j < s.len() ==> s[j] >= 0,
        0 <= i < s.len(),
    ensures
        s[i] <= seq_sum(s),
    decreases s.len(),
{
    lemma_seq_sum_nonneg(s.drop_last());
    if i < s.len() - 1 {
        lemma_seq_sum_le(s.drop_last(), i);
    }
}

proof fn lemma_seq_sum_nonneg(s: Seq<int>)
    requires
        forall|j: int| 0 <= j < s.len() ==> s[j] >= 0,
    ensures
        seq_sum(s) >= 0,
    decreases s.len(),
{
    if s.len() > 0 {
        lemma_seq_sum_nonneg(s.drop_last());
    }
}

proof fn lemma_seq_sum_two(s: Seq<int>, i: int, j: int)
    requires
        forall|k: int| 0 <= k < s.len() ==> s[k] >= 0,
        0 <= i < s.len(),
        0 <= j < s.len(),
        i != j,
    ensures
        s[i] + s[j] <= seq_sum(s),
    decreases s.len(),
{
    lemma_seq_sum_nonneg(s.drop_last());
    if i == s.len() - 1 {
        lemma_seq_sum_le(s.drop_last(), j);
    } else if j == s.len() - 1 {
        lemma_seq_sum_le(s.drop_last(), i);
    } else {
        lemma_seq_sum_two(s.drop_last(), i, j);
    }
}

/// A prefix of non-negative values sums to at most the whole.
proof fn lemma_prefix_le(s: Seq<int>, k: int)
    requires
        forall|j: int| 0 <= j < s.len() ==> s[j] >= 0,
        0 <= k <= s.len(),
    ensures
        seq_sum(s.take(k)) <= seq_sum(s),
        seq_sum(s.take(k)) >= 0,
    decreases s.len() - k,
{
    if k < s.len() {
        lemma_prefix_le(s, k + 1);
        assert(s.take(k + 1).drop_last() =~= s.take(k));
        lemma_seq_sum_le(s.take(k + 1), k);
    } else {
        assert(s.take(k) =~= s);
        lemma_seq_sum_nonneg(s);
    }
}

proof fn lemma_seq_sum_zero(s: Seq<int>)
    requires
        forall|j: int| 0 <= j < s.len() ==> s[j] == 0,
    ensures
        seq_sum(s) == 0,
    decreases s.len(),
{
    if s.len() > 0 {
        lemma_seq_sum_zero(s.drop_last());
    }
}

/// A move with what playing it does to the line it targets.
#[derive(Debug, Clone, PartialEq, Eq, Copy)]
pub struct MoveDetailed {
    move_: Move,
    count: u8,
    fp: bool,
    row: RowState,
}

/// How full a move leaves its line.
#[derive(Debug, Clone, PartialEq, Eq, Copy)]
enum RowState {
    Partial,
    Full,
    Overfull,
}

/// Coarse progress of a game.
#[derive(Debug, Clone, Copy, PartialEq, Eq, Structural)]
pub enum State {
    RoundActive,
    RoundEnd,
    GameEnd,
}

/// Index of a factory slot; slot 0 is the centre.
#[derive(Debug, Clone, Copy, PartialEq, Eq, Structural)]
pub struct Source(pub u8);

impl Source {
    pub fn is_centre(&self) -> (r: bool)
        ensures
            r == (self.0 == 0),
    {
        self.0 == 0
    }
}

/// Where the tiles of a move go: one pattern line, or the floor.
#[derive(Debug, Clone, Copy, PartialEq, Eq, Structural)]
pub enum Destination {
    Row(RowIndex),
    Floor,
}

impl Destination {
    pub fn from_row(row: RowIndex) -> (d: Destination)
        ensures
            d == Destination::Row(row),
    {
        Destination::Row(row)
    }
}

/// One ply: take every tile of one colour from one slot and put it somewhere.
#[derive(Debug, Clone, Copy, PartialEq, Eq, Structural)]
pub struct Move {
    /// Where the tiles will be taken from
    pub source: Source,
    /// Which tile will be played
    pub tile: Tile,
    /// How many tiles will be played
    pub count: u8,
    /// How many will end up in the row
    pub play_count: u8,
    /// How many tiles will be in the row after
    pub row_count: u8,
    /// Where the tiles will be placed
    pub destination: Destination,
}

impl Move {
    pub fn new(
        source: Source,
        tile: Tile,
        count: u8,
        play_count: u8,
        row_count: u8,
        destination: Destination,
    ) -> (m: Self)
        ensures
            m == (Move { source, tile, count, play_count, row_count, destination }),
    {
        Self { source, tile, count, play_count, row_count, destination }
    }

    pub fn new_to_floor(source: Source, tile: Tile, count: u8) -> (m: Self)
        ensures
            m == (Move {
                source,
                tile,
                count,
                play_count: 0,
                row_count: 0,
                destination: Destination::Floor,
            }),
    {
        Self { source, tile, count, play_count: 0, row_count: 0, destination: Destination::Floor }
    }

    pub open spec fn fills_row_spec(&self) -> bool {
        match self.destination {
            Destination::Row(row) => self.row_count == row.index() + 1,
            Destination::Floor => false,
        }
    }

    pub open spec fn no_floor_tiles_spec(&self) -> bool {
        match self.destination {
            Destination::Row(_) => self.count == self.play_count,
            Destination::Floor => false,
        }
    }

    /// Whether the move completes its pattern line.
    pub fn fills_row(&self) -> (r: bool)
        ensures
            r == self.fills_row_spec(),
    {
        match self.destination {
            Destination::Row(row) => self.row_count == row.capacity(),
            Destination::Floor => false,
        }
    }

    /// Whether every tile of the move lands in its pattern line.
    pub fn no_floor_tiles(&self) -> (r: bool)
        ensures
            r == self.no_floor_tiles_spec(),
    {
        match self.destination {
            Destination::Row(_) => self.count == self.play_count,
            Destination::Floor => false,
        }
    }

    /// Whether the move exactly completes its pattern line.
    pub fn perfect_move(&self) -> (r: bool)
        ensures
            r == (self.fills_row_spec() && self.no_floor_tiles_spec()),
    {
        self.fills_row() && self.no_floor_tiles()
    }

    /// How many tiles of the move go to the floor.
    pub fn floor_tiles(&self) -> (r: u8)
        requires
            self.destination is Row ==> self.play_count <= self.count,
        ensures
            r == match self.destination {
                Destination::Row(_) => self.count - self.play_count,
                Destination::Floor => self.count as int,
            },
    {
        match self.destination {
            Destination::Row(_) => self.count - self.play_count,
            Destination::Floor => self.count,
        }
    }

    /// Capacity of the destination line; 0 for the floor.
    pub fn row_capacity(&self) -> (r: u8)
        ensures
            r == match self.destination {
                Destination::Row(row) => row.index() + 1,
                Destination::Floor => 0,
            },
    {
        match self.destination {
            Destination::Row(row) => row.capacity(),
            Destination::Floor => 0,
        }
    }
}

/// Tiles of colour `u` in a factory slot; an unused slot holds none.
pub open spec fn slot_count(f: Option<TileGroup>, u: Tile) -> nat {
    match f {
        Some(g) => g.count(u),
        None => 0,
    }
}

/// Number of tiles in a factory slot; an unused slot holds none.
pub open spec fn slot_size(f: Option<TileGroup>) -> nat {
    match f {
        Some(g) => g.size(),
        None => 0,
    }
}

/// Tiles dealt to each factory display at the start of a round.
pub const TILES_PER_DISPLAY: usize = 4;

/// Rounds after which the game ends even without a full wall row.
pub const MAX_ROUNDS: u16 = 10;

#[derive(Debug, Clone, PartialEq, Eq)]
pub struct Gamestate {
    /// List of boards for each player
    boards: Vec<PlayerBoard>,
    /// Contains tiles that are not in play
    tilebag: TileGroup,
    /// Factories from which tiles are chosen; slot 0 is the centre
    factories: Vec<Option<TileGroup>>,
    /// First player token
    first_player_tile: bool,
    /// rng for picking tiles from bag
    rng: rand::rngs::SmallRng,
    /// Current player
    current_player: u8,
    /// Round number
    round: u16,
    /// State tracking
    state: State,
}

proof fn lemma_all_nonneg(g: Gamestate)
    ensures
        forall|j: int| 0 <= j < g.slot_counts().len() ==> g.slot_counts()[j] >= 0,
        forall|j: int| 0 <= j < g.board_tile_counts().len() ==> g.board_tile_counts()[j] >= 0,
        forall|j: int| 0 <= j < g.token_flags().len() ==> g.token_flags()[j] >= 0,
        seq_sum(g.slot_counts()) >= 0,
        seq_sum(g.board_tile_counts()) >= 0,
        seq_sum(g.token_flags()) >= 0,
{
    lemma_seq_sum_nonneg(g.slot_counts());
    lemma_seq_sum_nonneg(g.board_tile_counts());
    lemma_seq_sum_nonneg(g.token_flags());
}

/// While some slot holds a tile there is a legal move: taking that colour
/// to the floor.
proof fn lemma_some_legal_move(g: Gamestate) -> (m: Move)
    requires
        g.wf(),
        !g.all_slots_empty(),
    ensures
        g.legal(m),
{
    let i = choose|i: int| 0 <= i < g.factories_view().len() && slot_size(#[trigger] g.factories_view()[i]) != 0;
    lemma_all_nonneg(g);
    lemma_seq_sum_le(g.slot_counts(), i);
    let f = g.factories_view()[i].unwrap();
    let t = if f.count(Tile::Blue) > 0 {
        Tile::Blue
    } else if f.count(Tile::Yellow) > 0 {
        Tile::Yellow
    } else if f.count(Tile::Red) > 0 {
        Tile::Red
    } else if f.count(Tile::Black) > 0 {
        Tile::Black
    } else {
        Tile::White
    };
    Move {
        source: Source(i as u8),
        tile: t,
        count: f.count(t) as u8,
        play_count: 0,
        row_count: 0,
        destination: Destination::Floor,
    }
}

/// Between two rounds of a two-player game the boards hold at most 80
/// tiles, so the bag holds enough to fill the five displays.
proof fn lemma_two_boards_leave_tiles(g: Gamestate)
    requires
        g.players() == 2,
        forall|i: int| 0 <= i < g.players() ==> (#[trigger] g.boards_view()[i]).inv() && g.boards_view()[i].floor.size() == 0,
    ensures
        seq_sum(g.board_tile_counts()) <= 80,
{
    let s = g.board_tile_counts();
    lemma_board_capacity(g.boards_view()[0]);
    lemma_board_capacity(g.boards_view()[1]);
    assert(s.drop_last().drop_last().len() == 0);
    assert(seq_sum(s.drop_last()) == seq_sum(s.drop_last().drop_last()) + s[0]);
}

/// Conservation: in every well-formed game, which `new`, `play_move` and
/// `end_round` all produce, the bag, the factory slots and the boards hold
/// 100 tiles together, and exactly one first-player token is in play, in the
/// centre or on one board.
pub proof fn lemma_conservation(g: Gamestate)
    requires
        g.wf(),
    ensures
        g.bag_view().size() + seq_sum(g.slot_counts()) + seq_sum(g.board_tile_counts()) == 100,
        seq_sum(g.token_flags()) + ind(g.token_available()) == 1,
        g.token_available() ==> forall|i: int|
            0 <= i < g.players() ==> !(#[trigger] g.boards_view()[i]).first_player_tile,
{
    lemma_all_nonneg(g);
    if g.token_available() {
        assert forall|i: int| 0 <= i < g.players() implies !(#[trigger] g.boards_view()[i]).first_player_tile by {
            lemma_seq_sum_le(g.token_flags(), i);
        }
    }
}

pub proof fn lemma_slot_sum_nonneg(g: Gamestate)
    ensures
        seq_sum(g.slot_counts()) >= 0,
{
    lemma_all_nonneg(g);
}

/// Draw up to four tiles from `bag` for one factory display.
fn draw_display(bag: &mut TileGroup, rng: &mut rand::rngs::SmallRng) -> (f: TileGroup)
    requires
        old(bag).size() <= 100,
    ensures
        old(bag).union_of(*final(bag), f),
        final(bag).size() + f.size() == old(bag).size(),
        f.size() <= 4,
        old(bag).size() >= 4 ==> f.size() == 4,
{
    let mut f = TileGroup::new_empty();
    let mut d: usize = 0;
    while d < TILES_PER_DISPLAY
        invariant
            d <= 4,
            f.size() <= d,
            old(bag).union_of(*bag, f),
            bag.size() + f.size() == old(bag).size(),
            old(bag).size() >= 4 ==> f.size() == d,
            old(bag).size() <= 100,
        decreases 4 - d,
    {
        match bag.random_tile(rng) {
            Some(tile) => f.add_tile(tile),
            None => {},
        }
        d = d + 1;
    }
    f
}

impl Gamestate {
    pub closed spec fn boards_view(&self) -> Seq<PlayerBoard> {
        self.boards@
    }

    pub closed spec fn bag_view(&self) -> TileGroup {
        self.tilebag
    }

    pub closed spec fn factories_view(&self) -> Seq<Option<TileGroup>> {
        self.factories@
    }

    /// Whether the first-player token is still in the centre.
    pub closed spec fn token_available(&self) -> bool {
        self.first_player_tile
    }

    pub closed spec fn current(&self) -> int {
        self.current_player as int
    }

    pub closed spec fn round_view(&self) -> int {
        self.round as int
    }

    pub closed spec fn state_view(&self) -> State {
        self.state
    }

    pub open spec fn players(&self) -> int {
        self.boards_view().len() as int
    }

    pub open spec fn current_board(&self) -> PlayerBoard {
        self.boards_view()[self.current()]
    }

    pub open spec fn board_tile_counts(&self) -> Seq<int> {
        self.boards_view().map_values(|b: PlayerBoard| b.tiles() as int)
    }

    pub open spec fn slot_counts(&self) -> Seq<int> {
        self.factories_view().map_values(|f: Option<TileGroup>| slot_size(f) as int)
    }

    /// Tiles of colour `u` over all factory slots.
    pub open spec fn colour_in_slots(&self, u: Tile) -> int {
        seq_sum(self.factories_view().map_values(|f: Option<TileGroup>| slot_count(f, u) as int))
    }

    pub open spec fn token_flags(&self) -> Seq<int> {
        self.boards_view().map_values(|b: PlayerBoard| ind(b.first_player_tile) as int)
    }

    /// Tiles in the bag, in every factory slot and on every board.
    pub open spec fn tiles_in_play(&self) -> int {
        self.bag_view().size() + seq_sum(self.slot_counts()) + seq_sum(self.board_tile_counts())
    }

    /// First-player tokens: in the centre, or held by a board.
    pub open spec fn tokens(&self) -> int {
        seq_sum(self.token_flags()) + ind(self.token_available())
    }

    /// The game is well formed: two to four boards, each well formed, with
    /// `2 * players + 2` slots; 100 tiles and one first-player token in play;
    /// a round number from 1 to 10; every slot empty once the round ended;
    /// and, with two players, an active round always has a tile to take.
    pub open spec fn wf(&self) -> bool {
        &&& 2 <= self.players() <= 4
        &&& self.factories_view().len() == 2 * self.players() + 2
        &&& 0 <= self.current() < self.players()
        &&& forall|i: int| 0 <= i < self.players() ==> (#[trigger] self.boards_view()[i]).inv()
        &&& self.state_view() != State::GameEnd ==> forall|i: int|
            0 <= i < self.players() ==> (#[trigger] self.boards_view()[i]).score_bounded()
        &&& self.tiles_in_play() == 100
        &&& self.tokens() == 1
        &&& 1 <= self.round_view() <= 10
        &&& self.state_view() == State::RoundEnd ==> self.all_slots_empty()
        &&& self.players() == 2 && self.state_view() == State::RoundActive ==> !self.all_slots_empty()
    }

    pub open spec fn all_slots_empty(&self) -> bool {
        forall|i: int| 0 <= i < self.factories_view().len() ==> slot_size(
            #[trigger] self.factories_view()[i],
        ) == 0
    }

    /// `m` may be played now by the current player.
    pub open spec fn legal(&self, m: Move) -> bool {
        let s = m.source.0 as int;
        &&& 0 <= s < self.factories_view().len()
        &&& match self.factories_view()[s] {
            Some(g) => g.count(m.tile) > 0 && m.count == g.count(m.tile),
            None => false,
        }
        &&& match m.destination {
            Destination::Row(r) => self.current_board().can_place_spec(
                r.index(),
                m.tile,
                m.count as int,
            ) == Some((m.play_count as int, m.row_count as int)),
            Destination::Floor => m.play_count == 0 && m.row_count == 0,
        }
    }

    /// A new game for `players` players (two to four) with the given seed;
    /// `first_player` moves first. Deals the first round.
    pub fn new(players: u8, seed: u64, first_player: u8) -> (g: Self)
        requires
            2 <= players <= 4,
            first_player < players,
        ensures
            g.wf(),
            g.players() == players,
            g.factories_view().len() == 2 * players + 2,
            g.state_view() == State::RoundActive,
            g.round_view() == 1,
            g.current() == first_player,
            g.token_available(),
            g.factories_view()[0] is None,
            forall|i: int|
                1 <= i < g.factories_view().len() ==> ((#[trigger] g.factories_view()[i]) is Some
                    && slot_size(g.factories_view()[i]) == 4),
            g.bag_view().size() == 100 - 4 * (2 * players + 1),
            forall|i: int| 0 <= i < players ==> (#[trigger] g.boards_view()[i]).tiles() == 0,
    {
        let mut boards: Vec<PlayerBoard> = Vec::new();
        let mut i: u8 = 0;
        while i < players
            invariant
                i <= players,
                boards@.len() == i,
                forall|j: int|
                    0 <= j < i ==> (#[trigger] boards@[j]).inv() && boards@[j].tiles() == 0
                        && !boards@[j].first_player_tile && boards@[j].score_bounded(),
            decreases players - i,
        {
            boards.push(PlayerBoard::new());
            i = i + 1;
        }
        let mut factories: Vec<Option<TileGroup>> = Vec::new();
        let n_slots: usize = 2 * players as usize + 2;
        let mut k: usize = 0;
        while k < n_slots
            invariant
                k <= n_slots,
                factories@.len() == k,
                forall|j: int| 0 <= j < k ==> (#[trigger] factories@[j]) is None,
            decreases n_slots - k,
        {
            factories.push(None);
            k = k + 1;
        }
        let mut gs = Gamestate {
            boards,
            tilebag: TileGroup::new_bag(),
            factories,
            first_player_tile: true,
            rng: crate::rng::seeded_rng(seed),
            current_player: first_player,
            round: 0,
            state: State::GameEnd,
        };
        proof {
            lemma_seq_sum_zero(gs.board_tile_counts());
            lemma_seq_sum_zero(gs.slot_counts());
            lemma_seq_sum_zero(gs.token_flags());
        }
        gs.deal();
        gs
    }

    /// Fill every factory display with four tiles drawn from the bag (fewer
    /// when the bag runs out), start the round and count it.
    fn deal(&mut self)
        requires
            2 <= old(self).players() <= 4,
            old(self).factories_view().len() == 2 * old(self).players() + 2,
            forall|i: int|
                1 <= i < old(self).factories_view().len() ==> slot_size(
                    #[trigger] old(self).factories_view()[i],
                ) == 0,
            old(self).tiles_in_play() == 100,
            0 <= old(self).round_view() < 10,
        ensures
            final(self).boards_view() == old(self).boards_view(),
            final(self).factories_view().len() == old(self).factories_view().len(),
            final(self).factories_view()[0] == old(self).factories_view()[0],
            forall|i: int|
                1 <= i < final(self).factories_view().len() ==> (#[trigger] final(self).factories_view()[i]) is Some,
            old(self).bag_view().size() >= 4 * (old(self).factories_view().len() - 1) ==> {
                &&& final(self).bag_view().size() == old(self).bag_view().size() - 4 * (old(self).factories_view().len() - 1)
                &&& forall|i: int|
                    1 <= i < final(self).factories_view().len() ==> slot_size(
                        #[trigger] final(self).factories_view()[i],
                    ) == 4
            },
            final(self).tiles_in_play() == 100,
            forall|u: Tile| #[trigger] final(self).bag_view().count(u) + final(self).colour_in_slots(u)
                == old(self).bag_view().count(u) + old(self).colour_in_slots(u),
            final(self).token_available() == old(self).token_available(),
            final(self).current() == old(self).current(),
            final(self).state_view() == State::RoundActive,
            final(self).round_view() == old(self).round_view() + 1,
    {
        let n = self.factories.len();
        let ghost bag0 = self.tilebag.size();
        let ghost boards0 = self.board_tile_counts();
        proof {
            lemma_all_nonneg(*self);
        }
        let mut i: usize = 1;
        while i < n
            invariant
                1 <= i <= n,
                n == self.factories@.len(),
                n <= 10,
                self.boards@ == old(self).boards@,
                self.factories@[0] == old(self).factories@[0],
                self.first_player_tile == old(self).first_player_tile,
                self.current_player == old(self).current_player,
                self.round == old(self).round,
                forall|j: int| 1 <= j < i ==> (#[trigger] self.factories@[j]) is Some,
                forall|j: int| i <= j < n ==> slot_size(#[trigger] self.factories@[j]) == 0,
                self.tiles_in_play() == 100,
                self.tilebag.size() <= 100,
                forall|u: Tile| #[trigger] self.bag_view().count(u) + self.colour_in_slots(u)
                    == old(self).bag_view().count(u) + old(self).colour_in_slots(u),
                bag0 >= 4 * (n - 1) ==> {
                    &&& self.tilebag.size() == bag0 - 4 * (i - 1)
                    &&& forall|j: int| 1 <= j < i ==> slot_size(#[trigger] self.factories@[j]) == 4
                },
            decreases n - i,
        {
            let ghost before = *self;
            let f = draw_display(&mut self.tilebag, &mut self.rng);
            self.factories.set(i, Some(f));
            proof {
                lemma_all_nonneg(*self);
                assert(self.slot_counts() =~= before.slot_counts().update(i as int, f.size() as int));
                lemma_seq_sum_update(before.slot_counts(), i as int, f.size() as int);
                assert(self.board_tile_counts() == before.board_tile_counts());
                assert forall|u: Tile| #[trigger] self.bag_view().count(u) + self.colour_in_slots(u)
                    == before.bag_view().count(u) + before.colour_in_slots(u) by {
                    let cs = before.factories_view().map_values(|g: Option<TileGroup>| slot_count(g, u) as int);
                    assert(self.factories_view().map_values(|g: Option<TileGroup>| slot_count(g, u) as int)
                        =~= cs.update(i as int, f.count(u) as int));
                    lemma_seq_sum_update(cs, i as int, f.count(u) as int);
                    assert(slot_size(before.factories_view()[i as int]) == 0);
                    assert(cs[i as int] == 0);
                }
            }
            i = i + 1;
        }
        self.state = State::RoundActive;
        self.round = self.round + 1;
    }
}

impl Gamestate {
    /// Get current game state
    pub fn state(&self) -> (s: State)
        ensures
            s == self.state_view(),
    {
        self.state
    }

    /// Get current round
    pub fn round(&self) -> (r: u16)
        ensures
            r == self.round_view(),
    {
        self.round
    }

    /// Get the scores of the players, in board order
    pub fn scores(&self) -> (v: Vec<u8>)
        ensures
            v@.len() == self.players(),
            forall|i: int| 0 <= i < self.players() ==> v@[i] == (#[trigger] self.boards_view()[i]).score,
    {
        let mut v: Vec<u8> = Vec::new();
        let mut i: usize = 0;
        while i < self.boards.len()
            invariant
                i <= self.boards@.len(),
                v@.len() == i,
                forall|j: int| 0 <= j < i ==> v@[j] == (#[trigger] self.boards@[j]).score,
            decreases self.boards@.len() - i,
        {
            v.push(self.boards[i].score);
            i = i + 1;
        }
        v
    }

    /// Get tile bag
    pub fn tilebag(&self) -> (b: &TileGroup)
        ensures
            *b == self.bag_view(),
    {
        &self.tilebag
    }

    /// Get the current player index
    pub fn current_player(&self) -> (p: u8)
        ensures
            p == self.current(),
    {
        self.current_player
    }

    /// Get the first_player tile state
    pub fn first_player_tile(&self) -> (b: bool)
        ensures
            b == self.token_available(),
    {
        self.first_player_tile
    }

    /// Get access to the player boards
    pub fn boards(&self) -> (b: &Vec<PlayerBoard>)
        ensures
            b@ == self.boards_view(),
    {
        &self.boards
    }

    /// Get access to factories; slot 0 is the centre
    pub fn factories(&self) -> (f: &Vec<Option<TileGroup>>)
        ensures
            f@ == self.factories_view(),
    {
        &self.factories
    }

    /// Get the tiles in the centre
    pub fn centre(&self) -> (c: TileGroup)
        requires
            self.wf(),
        ensures
            c.size() == slot_size(self.factories_view()[0]),
            self.factories_view()[0] matches Some(g) ==> c == g,
    {
        match self.factories[0] {
            Some(g) => g,
            None => TileGroup::new_empty(),
        }
    }

    /// Whether every factory slot, centre included, is empty.
    fn all_slots_empty_exec(&self) -> (b: bool)
        requires
            forall|i: int| 0 <= i < self.factories@.len() ==> slot_size(#[trigger] self.factories@[i]) <= 255,
        ensures
            b == self.all_slots_empty(),
    {
        let mut i: usize = 0;
        while i < self.factories.len()
            invariant
                i <= self.factories@.len(),
                forall|j: int| 0 <= j < self.factories@.len() ==> slot_size(#[trigger] self.factories@[j]) <= 255,
                forall|j: int| 0 <= j < i ==> slot_size(#[trigger] self.factories@[j]) == 0,
            decreases self.factories@.len() - i,
        {
            match self.factories[i] {
                Some(g) => {
                    if g.total() != 0 {
                        assert(slot_size(self.factories_view()[i as int]) != 0);
                        return false;
                    }
                },
                None => {},
            }
            i = i + 1;
        }
        assert(self.factories_view() == self.factories@);
        true
    }

    /// First half of a move: empty the source slot, place the taken tiles
    /// on the current board; returns what is left of the slot.
    #[verifier::rlimit(60)]
    fn take_and_place(&mut self, move_: Move) -> (factory: TileGroup)
        requires
            old(self).wf(),
            old(self).state_view() == State::RoundActive,
            old(self).legal(move_),
        ensures
            final(self).factories@ == old(self).factories@.update(move_.source.0 as int, None),
            old(self).factories@[move_.source.0 as int] matches Some(g) && factory.without(g, move_.tile),
            final(self).boards@.len() == old(self).boards@.len(),
            forall|j: int|
                0 <= j < old(self).players() && j != old(self).current() ==> #[trigger] final(self).boards_view()[j]
                    == old(self).boards_view()[j],
            final(self).boards_view()[old(self).current()].inv(),
            final(self).boards_view()[old(self).current()].score_bounded(),
            final(self).boards_view()[old(self).current()].first_player_tile == (
            old(self).current_board().first_player_tile || (old(self).token_available() && move_.source.0 == 0)),
            final(self).boards_view()[old(self).current()].tiles() == old(self).current_board().tiles() + move_.count,
            move_.destination matches Destination::Row(r) ==> final(self).boards_view()[old(self).current()].lines_after_row(
                old(self).current_board(),
                r.index(),
                move_.tile,
                move_.count as int,
            ),
            move_.destination is Floor ==> final(self).boards_view()[old(self).current()].rows
                == old(self).current_board().rows && final(self).boards_view()[old(self).current()].floor.added(
                old(self).current_board().floor,
                move_.tile,
                move_.count as nat,
            ),
            final(self).first_player_tile == (old(self).first_player_tile && move_.source.0 != 0),
            final(self).tilebag == old(self).tilebag,
            final(self).current_player == old(self).current_player,
            final(self).round == old(self).round,
            final(self).state == old(self).state,
            final(self).tiles_in_play() + factory.size() == 100,
            final(self).tokens() == 1,
            factory.size() <= 100,
            seq_sum(final(self).slot_counts()) + factory.size() + move_.count == seq_sum(old(self).slot_counts()),
    {
        proof {
            lemma_all_nonneg(*self);
            lemma_seq_sum_le(self.slot_counts(), move_.source.0 as int);
            lemma_seq_sum_le(self.board_tile_counts(), self.current());
            lemma_seq_sum_le(self.slot_counts(), 0);
        }
        let ghost g0 = *self;
        let src = move_.source.0 as usize;
        let mut factory = self.factories[src].unwrap();
        self.factories.set(src, None);
        let tile = move_.tile;
        let count = factory.take_tile(tile);
        let fp = self.first_player_tile && move_.source.is_centre();
        let cp = self.current_player as usize;
        let mut board = self.boards[cp];
        board.place_tiles(move_.destination, tile, count, fp);
        self.boards.set(cp, board);
        if fp {
            self.first_player_tile = false;
        }
        let ghost g1 = *self;
        proof {
            assert(g1.slot_counts() =~= g0.slot_counts().update(src as int, 0));
            lemma_seq_sum_update(g0.slot_counts(), src as int, 0);
            assert(g1.board_tile_counts() =~= g0.board_tile_counts().update(
                cp as int,
                board.tiles() as int,
            ));
            lemma_seq_sum_update(g0.board_tile_counts(), cp as int, board.tiles() as int);
            assert(g1.token_flags() =~= g0.token_flags().update(
                cp as int,
                ind(board.first_player_tile) as int,
            ));
            lemma_seq_sum_update(g0.token_flags(), cp as int, ind(board.first_player_tile) as int);
            if fp {
                lemma_seq_sum_le(g0.token_flags(), cp as int);
            }
            lemma_all_nonneg(g1);
            lemma_seq_sum_le(g1.slot_counts(), 0);
        }
        factory
    }

    /// Play `move_` for the current player: take every tile of its colour
    /// from its slot (and the first-player token, when it comes from the
    /// centre and the token is still there), place them on the current
    /// board, and move what is left of a display to the centre. The round
    /// ends when every slot is empty; otherwise the turn passes on.
    #[verifier::rlimit(80)]
    pub fn play_move(&mut self, move_: Move) -> (s: State)
        requires
            old(self).wf(),
            old(self).state_view() == State::RoundActive,
            old(self).legal(move_),
        ensures
            final(self).wf(),
            s == final(self).state_view(),
            s != State::GameEnd,
            s == State::RoundEnd <==> final(self).all_slots_empty(),
            s == State::RoundActive ==> final(self).current() == (old(self).current() + 1) % old(self).players(),
            s == State::RoundEnd ==> final(self).current() == old(self).current(),
            final(self).round_view() == old(self).round_view(),
            final(self).token_available() == (old(self).token_available() && move_.source.0 != 0),
            final(self).players() == old(self).players(),
            seq_sum(final(self).slot_counts()) == seq_sum(old(self).slot_counts()) - move_.count,
            forall|j: int|
                1 <= j < old(self).factories_view().len() && j != move_.source.0 ==> #[trigger] final(self).factories_view()[j]
                    == old(self).factories_view()[j],
            final(self).factories_view().len() == old(self).factories_view().len(),
            move_.source.0 != 0 ==> final(self).factories_view()[move_.source.0 as int] is None,
            final(self).factories_view()[0] is Some,
            forall|u: Tile| #[trigger] slot_count(final(self).factories_view()[0], u) == if move_.source.0 == 0 {
                if u == move_.tile { 0 } else { slot_count(old(self).factories_view()[0], u) }
            } else {
                slot_count(old(self).factories_view()[0], u) + if u == move_.tile {
                    0
                } else {
                    slot_count(old(self).factories_view()[move_.source.0 as int], u)
                }
            },
            forall|j: int|
                0 <= j < old(self).players() && j != old(self).current() ==> #[trigger] final(self).boards_view()[j]
                    == old(self).boards_view()[j],
            final(self).boards_view()[old(self).current()].first_player_tile == (
            old(self).current_board().first_player_tile || (old(self).token_available() && move_.source.0 == 0)),
            final(self).boards_view()[old(self).current()].tiles() == old(self).current_board().tiles() + move_.count,
            move_.destination matches Destination::Row(r) ==> final(self).boards_view()[old(self).current()].lines_after_row(
                old(self).current_board(),
                r.index(),
                move_.tile,
                move_.count as int,
            ),
            move_.destination is Floor ==> final(self).boards_view()[old(self).current()].rows
                == old(self).current_board().rows && final(self).boards_view()[old(self).current()].floor.added(
                old(self).current_board().floor,
                move_.tile,
                move_.count as nat,
            ),
    {
        let ghost g0 = *self;
        let factory = self.take_and_place(move_);
        let ghost g1 = *self;
        proof {
            lemma_all_nonneg(g1);
            lemma_seq_sum_le(g1.slot_counts(), 0);
        }
        match self.factories[0] {
            Some(c) => {
                let mut c = c;
                c.merge(&factory);
                self.factories.set(0, Some(c));
            },
            None => {
                self.factories.set(0, Some(factory));
            },
        }
        proof {
            assert(self.slot_counts() =~= g1.slot_counts().update(
                0,
                slot_size(self.factories@[0]) as int,
            ));
            lemma_seq_sum_update(g1.slot_counts(), 0, slot_size(self.factories@[0]) as int);
            assert(self.board_tile_counts() == g1.board_tile_counts());
            assert(self.token_flags() == g1.token_flags());
            lemma_all_nonneg(*self);
            assert forall|i: int| 0 <= i < self.factories@.len() implies slot_size(
                #[trigger] self.factories@[i],
            ) <= 255 by {
                lemma_seq_sum_le(self.slot_counts(), i);
            }
            assert forall|i: int| 0 <= i < self.players() implies (#[trigger] self.boards_view()[i]).inv()
                && self.boards_view()[i].score_bounded() by {
                if i != g0.current() {
                    assert(self.boards_view()[i] == g0.boards_view()[i]);
                }
            }
        }
        let ghost g2 = *self;
        let empty = self.all_slots_empty_exec();
        if empty {
            self.state = State::RoundEnd;
        } else {
            self.current_player = (self.current_player + 1) % (self.boards.len() as u8);
        }
        proof {
            assert(self.factories_view() == g2.factories_view());
            assert(empty == self.all_slots_empty());
        }
        self.state
    }
}

impl Gamestate {
    /// Index of the board that holds the first-player token, if any.
    fn token_holder(&self) -> (r: Option<usize>)
        ensures
            match r {
                Some(i) => 0 <= i < self.boards@.len() && self.boards@[i as int].first_player_tile,
                None => forall|i: int| 0 <= i < self.boards@.len() ==> !(#[trigger] self.boards@[i]).first_player_tile,
            },
    {
        let mut i: usize = 0;
        while i < self.boards.len()
            invariant
                i <= self.boards@.len(),
                forall|j: int| 0 <= j < i ==> !(#[trigger] self.boards@[j]).first_player_tile,
            decreases self.boards@.len() - i,
        {
            if self.boards[i].first_player_tile {
                return Some(i);
            }
            i = i + 1;
        }
        None
    }

    /// Resolve the round on every board, putting the tiles they give back
    /// into the bag; returns whether some wall now has a full row.
    #[verifier::rlimit(60)]
    fn resolve_boards(&mut self) -> (ends: bool)
        requires
            old(self).wf(),
            old(self).state_view() == State::RoundEnd,
        ensures
            final(self).boards@.len() == old(self).boards@.len(),
            forall|i: int| 0 <= i < old(self).players() ==> {
                let b = #[trigger] final(self).boards_view()[i];
                let o = old(self).boards_view()[i];
                &&& b.inv()
                &&& b.score_bounded()
                &&& !b.first_player_tile
                &&& b.wall == o.resolved(5).0
                &&& b.score == clamp_sub(o.score + o.resolved(5).1, floor_penalty(o.floor_load()) as int)
                &&& b.floor.size() == 0
            },
            ends == exists|i: int| 0 <= i < old(self).players() && (#[trigger] old(self).boards_view()[i]).resolved(5).0.has_full_row_spec(),
            final(self).factories == old(self).factories,
            final(self).first_player_tile == old(self).first_player_tile,
            final(self).current_player == old(self).current_player,
            final(self).round == old(self).round,
            final(self).state == old(self).state,
            final(self).tilebag.size() + seq_sum(final(self).board_tile_counts()) == 100,
    {
        proof {
            lemma_all_nonneg(*self);
            assert forall|j: int| 0 <= j < self.slot_counts().len() implies self.slot_counts()[j] == 0 by {
                assert(slot_size(self.factories_view()[j]) == 0);
            }
            lemma_seq_sum_zero(self.slot_counts());
        }
        let n = self.boards.len();
        let mut ends = false;
        let mut i: usize = 0;
        while i < n
            invariant
                i <= n,
                n == self.boards@.len(),
                n == old(self).boards@.len(),
                self.factories == old(self).factories,
                self.first_player_tile == old(self).first_player_tile,
                self.current_player == old(self).current_player,
                self.round == old(self).round,
                self.state == old(self).state,
                forall|j: int| i <= j < n ==> #[trigger] self.boards@[j] == old(self).boards@[j],
                forall|j: int| 0 <= j < i ==> {
                    let b = #[trigger] self.boards@[j];
                    let o = old(self).boards@[j];
                    &&& b.inv()
                    &&& b.score_bounded()
                    &&& !b.first_player_tile
                    &&& b.wall == o.resolved(5).0
                    &&& b.score == clamp_sub(o.score + o.resolved(5).1, floor_penalty(o.floor_load()) as int)
                    &&& b.floor.size() == 0
                },
                forall|j: int| 0 <= j < n ==> (#[trigger] old(self).boards@[j]).inv() && old(self).boards@[j].score_bounded(),
                ends == exists|j: int| 0 <= j < i && (#[trigger] old(self).boards@[j]).resolved(5).0.has_full_row_spec(),
                self.tilebag.size() + seq_sum(self.board_tile_counts()) == 100,
            decreases n - i,
        {
            let ghost before = *self;
            proof {
                lemma_all_nonneg(before);
                lemma_seq_sum_le(before.board_tile_counts(), i as int);
            }
            let mut b = self.boards[i];
            let (ret, full) = b.end_round();
            self.boards.set(i, b);
            proof {
                assert(self.board_tile_counts() =~= before.board_tile_counts().update(i as int, b.tiles() as int));
                lemma_seq_sum_update(before.board_tile_counts(), i as int, b.tiles() as int);
                lemma_all_nonneg(*self);
            }
            self.tilebag.merge(&ret);
            ends = ends || full;
            i = i + 1;
        }
        ends
    }

    /// Add each wall's bonus to its board's score.
    fn finish_boards(&mut self)
        requires
            forall|j: int| 0 <= j < old(self).boards@.len() ==> (#[trigger] old(self).boards@[j]).score_bounded(),
        ensures
            final(self).boards@.len() == old(self).boards@.len(),
            forall|j: int| 0 <= j < old(self).boards@.len() ==> {
                let b = #[trigger] final(self).boards@[j];
                let o = old(self).boards@[j];
                &&& b.score == o.score + o.wall.bonus()
                &&& b == PlayerBoard { score: b.score, ..o }
            },
            final(self).tilebag == old(self).tilebag,
            final(self).factories == old(self).factories,
            final(self).first_player_tile == old(self).first_player_tile,
            final(self).current_player == old(self).current_player,
            final(self).round == old(self).round,
            final(self).state == old(self).state,
            final(self).board_tile_counts() == old(self).board_tile_counts(),
            final(self).token_flags() == old(self).token_flags(),
    {
        let n = self.boards.len();
        let mut i: usize = 0;
        while i < n
            invariant
                i <= n,
                n == self.boards@.len(),
                n == old(self).boards@.len(),
                forall|j: int| i <= j < n ==> #[trigger] self.boards@[j] == old(self).boards@[j],
                forall|j: int| 0 <= j < i ==> {
                    let b = #[trigger] self.boards@[j];
                    let o = old(self).boards@[j];
                    &&& b.score == o.score + o.wall.bonus()
                    &&& b == PlayerBoard { score: b.score, ..o }
                },
                forall|j: int| 0 <= j < n ==> (#[trigger] old(self).boards@[j]).score_bounded(),
                self.tilebag == old(self).tilebag,
                self.factories == old(self).factories,
                self.first_player_tile == old(self).first_player_tile,
                self.current_player == old(self).current_player,
                self.round == old(self).round,
                self.state == old(self).state,
            decreases n - i,
        {
            let mut b = self.boards[i];
            b.end_game();
            self.boards.set(i, b);
            i = i + 1;
        }
        assert(self.board_tile_counts() =~= old(self).board_tile_counts());
        assert(self.token_flags() =~= old(self).token_flags());
    }

    /// End the round: the holder of the first-player token starts the next
    /// round and the token goes back to the centre; every board resolves its
    /// full lines and floor, giving tiles back to the bag. The game ends when
    /// some wall has a full row or the last round was played, and then every
    /// board adds its wall bonus; otherwise the next round is dealt.
    #[verifier::rlimit(60)]
    pub fn end_round(&mut self) -> (s: State)
        requires
            old(self).wf(),
            old(self).state_view() == State::RoundEnd,
        ensures
            final(self).wf(),
            s == final(self).state_view(),
            s != State::RoundEnd,
            s == State::GameEnd <==> (old(self).round_view() == 10 || exists|i: int|
                0 <= i < old(self).players() && (#[trigger] old(self).boards_view()[i]).resolved(
                    5,
                ).0.has_full_row_spec()),
            s == State::RoundActive ==> final(self).round_view() == old(self).round_view() + 1,
            s == State::GameEnd ==> final(self).round_view() == old(self).round_view(),
            final(self).token_available(),
            final(self).players() == old(self).players(),
            forall|i: int|
                0 <= i < old(self).players() && (#[trigger] old(self).boards_view()[i]).first_player_tile
                    ==> final(self).current() == i,
            forall|i: int| 0 <= i < old(self).players() ==> {
                let b = #[trigger] final(self).boards_view()[i];
                let o = old(self).boards_view()[i];
                &&& b.wall == o.resolved(5).0
                &&& b.score == clamp_sub(o.score + o.resolved(5).1, floor_penalty(o.floor_load()) as int)
                    + if s == State::GameEnd { b.wall.bonus() as int } else { 0 }
            },
    {
        proof {
            lemma_all_nonneg(*self);
        }
        match self.token_holder() {
            Some(i) => {
                proof {
                    assert forall|j: int| 0 <= j < self.players() && (#[trigger] self.boards_view()[j]).first_player_tile implies j == i by {
                        if j != i {
                            lemma_seq_sum_two(self.token_flags(), i as int, j);
                        }
                    }
                }
                self.current_player = i as u8;
            },
            None => {},
        }
        let ghost g0 = *self;
        let ends = self.resolve_boards();
        self.first_player_tile = true;
        proof {
            assert forall|j: int| 0 <= j < self.token_flags().len() implies self.token_flags()[j] == 0 by {
                assert(!self.boards_view()[j].first_player_tile);
            }
            lemma_seq_sum_zero(self.token_flags());
            assert forall|j: int| 0 <= j < self.slot_counts().len() implies self.slot_counts()[j] == 0 by {
                assert(slot_size(g0.factories_view()[j]) == 0);
            }
            lemma_seq_sum_zero(self.slot_counts());
        }
        if ends || self.round == MAX_ROUNDS {
            self.finish_boards();
            self.state = State::GameEnd;
        } else {
            proof {
                if self.players() == 2 {
                    lemma_two_boards_leave_tiles(*self);
                }
            }
            self.deal();
            proof {
                if self.players() == 2 {
                    assert(slot_size(self.factories_view()[1]) == 4);
                }
            }
        }
        self.state
    }
}

impl Gamestate {
    /// Add the moves that take colour `tile` from slot `src`: one per line
    /// that accepts it, then one to the floor.
    fn push_tile_moves(&self, src: usize, tile: Tile, count: u8, moves: &mut Vec<Move>)
        requires
            self.wf(),
            src < self.factories_view().len(),
            self.factories_view()[src as int] matches Some(g) && g.count(tile) == count,
            count > 0,
        ensures
            final(moves)@.len() >= old(moves)@.len(),
            forall|k: int| 0 <= k < old(moves)@.len() ==> final(moves)@[k] == old(moves)@[k],
            forall|k: int| old(moves)@.len() <= k < final(moves)@.len() ==> self.legal(#[trigger] final(moves)@[k]),
            forall|m: Move| self.legal(m) && m.source.0 == src && m.tile == tile ==> final(moves)@.contains(m),
    {
        let board = self.boards[self.current_player as usize];
        let ghost start = moves@.len();
        let mut r: usize = 0;
        while r < 5
            invariant
                self.wf(),
                src < self.factories_view().len(),
                self.factories_view()[src as int] matches Some(g) && g.count(tile) == count,
                count > 0,
                board == self.current_board(),
                r <= 5,
                moves@.len() >= old(moves)@.len(),
                start == old(moves)@.len(),
                forall|k: int| 0 <= k < old(moves)@.len() ==> moves@[k] == old(moves)@[k],
                forall|k: int| old(moves)@.len() <= k < moves@.len() ==> self.legal(#[trigger] moves@[k]),
                forall|m: Move|
                    self.legal(m) && m.source.0 == src && m.tile == tile && (m.destination matches Destination::Row(x) && x.index() < r) ==> moves@.contains(m),
            decreases 5 - r,
        {
            let row = RowIndex::from_index(r);
            let ghost before = moves@;
            match board.can_play_tile(row, tile, count) {
                Some((play_count, row_count)) => {
                    let m = Move::new(Source(src as u8), tile, count, play_count, row_count, Destination::Row(row));
                    moves.push(m);
                    proof {
                        assert(moves@[moves@.len() - 1] == m);
                        assert forall|m2: Move|
                            self.legal(m2) && m2.source.0 == src && m2.tile == tile && (m2.destination matches Destination::Row(x) && x.index() < r + 1) implies moves@.contains(m2) by {
                            if m2.destination == Destination::Row(row) {
                                assert(m2 == m);
                                assert(moves@[moves@.len() - 1] == m2);
                            } else {
                                assert(before.contains(m2));
                                let k = choose|k: int| 0 <= k < before.len() && before[k] == m2;
                                assert(moves@[k] == m2);
                            }
                        }
                    }
                },
                None => {
                    proof {
                        assert forall|m2: Move|
                            self.legal(m2) && m2.source.0 == src && m2.tile == tile && (m2.destination matches Destination::Row(x) && x.index() < r + 1) implies moves@.contains(m2) by {
                            if m2.destination == Destination::Row(row) {
                                assert(false);
                            }
                        }
                    }
                },
            }
            r = r + 1;
        }
        let ghost before = moves@;
        let m = Move::new_to_floor(Source(src as u8), tile, count);
        moves.push(m);
        proof {
            assert(moves@[moves@.len() - 1] == m);
            assert forall|m2: Move| self.legal(m2) && m2.source.0 == src && m2.tile == tile implies moves@.contains(m2) by {
                if m2.destination == Destination::Floor {
                    assert(m2 == m);
                    assert(moves@[moves@.len() - 1] == m2);
                } else {
                    assert(before.contains(m2));
                    let k = choose|k: int| 0 <= k < before.len() && before[k] == m2;
                    assert(moves@[k] == m2);
                }
            }
        }
    }

    /// The legal moves of the current player, in a fixed order: by slot, then
    /// colour, then line, each colour's floor move after its line moves.
    pub fn get_moves(&self) -> (moves: Vec<Move>)
        requires
            self.wf(),
        ensures
            forall|k: int| 0 <= k < moves@.len() ==> self.legal(#[trigger] moves@[k]),
            forall|m: Move| self.legal(m) ==> moves@.contains(m),
            !self.all_slots_empty() ==> moves@.len() > 0,
    {
        let mut moves: Vec<Move> = Vec::new();
        let mut i: usize = 0;
        while i < self.factories.len()
            invariant
                self.wf(),
                i <= self.factories@.len(),
                forall|k: int| 0 <= k < moves@.len() ==> self.legal(#[trigger] moves@[k]),
                forall|m: Move| self.legal(m) && m.source.0 < i ==> moves@.contains(m),
            decreases self.factories@.len() - i,
        {
            match self.factories[i] {
                Some(f) => {
                    let mut j: u8 = 0;
                    while j < 5
                        invariant
                            self.wf(),
                            i < self.factories@.len(),
                            self.factories@[i as int] == Some(f),
                            j <= 5,
                            forall|k: int| 0 <= k < moves@.len() ==> self.legal(#[trigger] moves@[k]),
                            forall|m: Move|
                                self.legal(m) && (m.source.0 < i || (m.source.0 == i && m.tile.index() < j)) ==> moves@.contains(m),
                        decreases 5 - j,
                    {
                        let tile = Tile::from_index(j);
                        let count = f.tile_count(tile);
                        let ghost before = moves@;
                        if count > 0 {
                            self.push_tile_moves(i, tile, count, &mut moves);
                            proof {
                                assert forall|m: Move|
                                    self.legal(m) && (m.source.0 < i || (m.source.0 == i && m.tile.index() < j + 1)) implies moves@.contains(m) by {
                                    if m.source.0 == i && m.tile == tile {
                                    } else {
                                        assert(m.tile.index() < j || m.source.0 < i);
                                        assert(before.contains(m));
                                        let k = choose|k: int| 0 <= k < before.len() && before[k] == m;
                                        assert(moves@[k] == m);
                                    }
                                }
                            }
                        } else {
                            proof {
                                assert forall|m: Move|
                                    self.legal(m) && (m.source.0 < i || (m.source.0 == i && m.tile.index() < j + 1)) implies moves@.contains(m) by {
                                    if m.source.0 == i && m.tile.index() == j {
                                        lemma_tile_of_index(m.tile);
                                        assert(m.tile == tile);
                                    }
                                }
                            }
                        }
                        j = j + 1;
                    }
                    proof {
                        assert forall|m: Move| self.legal(m) && m.source.0 < i + 1 implies moves@.contains(m) by {
                            lemma_tile_of_index(m.tile);
                        }
                    }
                },
                None => {},
            }
            i = i + 1;
        }
        proof {
            if !self.all_slots_empty() {
                let m = lemma_some_legal_move(*self);
                assert(moves@.contains(m));
            }
        }
        moves
    }
}

impl Gamestate {
    /// Whether `move_` would take the first-player token.
    pub open spec fn takes_token(&self, move_: Move) -> bool {
        move_.source.0 == 0 && self.token_available()
    }

    /// Check if this move will take the first player tile
    pub fn takes_fp(&self, move_: &Move) -> (b: bool)
        ensures
            b == self.takes_token(*move_),
    {
        move_.source.is_centre() && self.first_player_tile
    }

    /// The predicted score of the current player if `move_` were played, and
    /// its change from the current prediction. The game is not changed.
    pub fn predict_score(&self, move_: Move) -> (r: (u8, i16))
        requires
            self.wf(),
            self.state_view() == State::RoundActive,
            self.legal(move_),
        ensures
            forall|b: PlayerBoard|
                b.placement_result(
                    self.current_board(),
                    move_.destination,
                    move_.tile,
                    move_.count as int,
                    self.takes_token(move_),
                ) ==> r.0 == b.predicted(),
            r.1 == r.0 - self.current_board().predicted_score,
    {
        proof {
            lemma_all_nonneg(*self);
            lemma_seq_sum_le(self.slot_counts(), move_.source.0 as int);
            lemma_seq_sum_le(self.board_tile_counts(), self.current());
        }
        let mut board = self.boards[self.current_player as usize];
        let prev_score = board.predicted_score;
        board.place_tiles(
            move_.destination,
            move_.tile,
            move_.count,
            move_.source.is_centre() && self.first_player_tile,
        );
        proof {
            assert forall|b: PlayerBoard|
                b.placement_result(
                    self.current_board(),
                    move_.destination,
                    move_.tile,
                    move_.count as int,
                    self.takes_token(move_),
                ) implies board.predicted_score == b.predicted() by {
                lemma_placement_result_predicted(
                    board,
                    b,
                    self.current_board(),
                    move_.destination,
                    move_.tile,
                    move_.count as int,
                    self.takes_token(move_),
                );
            }
        }
        (board.predicted_score, board.predicted_score as i16 - prev_score as i16)
    }

    /// Count up the tiles in play.
    pub fn tile_count(&self) -> (n: u8)
        requires
            self.wf(),
        ensures
            n == self.tiles_in_play(),
    {
        proof {
            lemma_all_nonneg(*self);
        }
        let mut n: u8 = self.tilebag.total();
        let mut i: usize = 0;
        while i < self.boards.len()
            invariant
                self.wf(),
                i <= self.boards@.len(),
                n == self.bag_view().size() + seq_sum(self.board_tile_counts().take(i as int)),
            decreases self.boards@.len() - i,
        {
            proof {
                lemma_all_nonneg(*self);
                assert(self.board_tile_counts().take(i + 1).drop_last() =~= self.board_tile_counts().take(i as int));
                lemma_prefix_le(self.board_tile_counts(), i + 1);
                lemma_seq_sum_le(self.board_tile_counts(), i as int);
                assert(self.board_tile_counts()[i as int] == self.boards@[i as int].tiles());
            }
            n = n + self.boards[i].tile_count();
            i = i + 1;
        }
        proof {
            assert(self.board_tile_counts().take(i as int) =~= self.board_tile_counts());
        }
        let mut k: usize = 0;
        while k < self.factories.len()
            invariant
                self.wf(),
                k <= self.factories@.len(),
                n == self.bag_view().size() + seq_sum(self.board_tile_counts()) + seq_sum(
                    self.slot_counts().take(k as int),
                ),
            decreases self.factories@.len() - k,
        {
            proof {
                lemma_all_nonneg(*self);
                assert(self.slot_counts().take(k + 1).drop_last() =~= self.slot_counts().take(k as int));
                lemma_prefix_le(self.slot_counts(), k + 1);
                lemma_seq_sum_le(self.slot_counts(), k as int);
                assert(self.slot_counts()[k as int] == slot_size(self.factories@[k as int]));
            }
            match self.factories[k] {
                Some(g) => {
                    n = n + g.total();
                },
                None => {},
            }
            k = k + 1;
        }
        proof {
            assert(self.slot_counts().take(k as int) =~= self.slot_counts());
        }
        n
    }

    /// Number of first-player tokens in play: on boards or in the centre.
    pub fn fp_count(&self) -> (n: usize)
        requires
            self.wf(),
        ensures
            n == self.tokens(),
    {
        proof {
            lemma_all_nonneg(*self);
        }
        let mut n: usize = 0;
        let mut i: usize = 0;
        while i < self.boards.len()
            invariant
                self.wf(),
                i <= self.boards@.len(),
                n == seq_sum(self.token_flags().take(i as int)),
            decreases self.boards@.len() - i,
        {
            proof {
                lemma_all_nonneg(*self);
                assert(self.token_flags().take(i + 1).drop_last() =~= self.token_flags().take(i as int));
                lemma_prefix_le(self.token_flags(), i + 1);
                assert(self.token_flags()[i as int] == ind(self.boards@[i as int].first_player_tile));
            }
            if self.boards[i].first_player_tile {
                n = n + 1;
            }
            i = i + 1;
        }
        proof {
            assert(self.token_flags().take(i as int) =~= self.token_flags());
        }
        if self.first_player_tile {
            n + 1
        } else {
            n
        }
    }

    pub fn new_2_player() -> (g: Self)
        ensures
            g.wf(),
            g.players() == 2,
            g.state_view() == State::RoundActive,
            g.round_view() == 1,
            g.bag_view().size() == 80,
            g.factories_view()[0] is None,
            forall|i: int| 1 <= i < 6 ==> slot_size(#[trigger] g.factories_view()[i]) == 4,
    {
        Self::new(2, crate::rng::random_seed(), 0)
    }

    pub fn new_2_player_with_seed(seed: u64, first_player: u8) -> (g: Self)
        requires
            first_player < 2,
        ensures
            g.wf(),
            g.players() == 2,
            g.current() == first_player,
            g.state_view() == State::RoundActive,
            g.round_view() == 1,
            g.bag_view().size() == 80,
            g.factories_view()[0] is None,
            forall|i: int| 1 <= i < 6 ==> slot_size(#[trigger] g.factories_view()[i]) == 4,
    {
        Self::new(2, seed, first_player)
    }

    pub fn new_3_player() -> (g: Self)
        ensures
            g.wf(),
            g.players() == 3,
            g.state_view() == State::RoundActive,
            g.round_view() == 1,
    {
        Self::new(3, crate::rng::random_seed(), 0)
    }

    pub fn new_4_player() -> (g: Self)
        ensures
            g.wf(),
            g.players() == 4,
            g.state_view() == State::RoundActive,
            g.round_view() == 1,
    {
        Self::new(4, crate::rng::random_seed(), 0)
    }
}

} // verus!
