//! The deck, the board, and the rule that a board must meet at the end of a
//! turn.

use vstd::prelude::*;

use crate::board::{bounding_box, Board, Bounds};
use crate::coord::Coord;
use crate::group::{valid_group, Group};
use crate::piece::{Color, Piece};
use crate::random::shuffle_pieces;

verus! {

/// The number of pieces of a full deck: thirteen numbers in four colors,
/// each twice.
pub const DECK_SIZE: usize = 104;

/// The color at place `k` of the order Red, Blue, Yellow, Black.
pub open spec fn playable_color(k: int) -> Color {
    if k == 0 {
        Color::Red
    } else if k == 1 {
        Color::Blue
    } else if k == 2 {
        Color::Yellow
    } else {
        Color::Black
    }
}

/// The full deck in the order in which it is built: the numbers from 1 to 13,
/// each number as two rounds of the four colors.
pub open spec fn full_deck() -> Seq<Piece> {
    Seq::new(
        104,
        |k: int| Piece { color: playable_color(k % 4), num: (k / 8 + 1) as u8 },
    )
}

/// Whether a piece lies on column `x` of row `y`.
pub open spec fn occupied(m: Map<Coord, Piece>, x: int, y: int) -> bool {
    &&& i32::MIN <= x <= i32::MAX
    &&& i32::MIN <= y <= i32::MAX
    &&& m.contains_key(Coord(x as i32, y as i32))
}

/// The piece on column `x` of row `y`.
pub open spec fn piece_at(m: Map<Coord, Piece>, x: int, y: int) -> Piece {
    m[Coord(x as i32, y as i32)]
}

/// The number of occupied cells that follow each other in row `y` from column
/// `x` on, none of them beyond column `max_x`.
pub open spec fn run_len(m: Map<Coord, Piece>, x: int, y: int, max_x: int) -> nat
    decreases max_x - x + 1,
{
    if x > max_x || !occupied(m, x, y) {
        0
    } else {
        1 + run_len(m, x + 1, y, max_x)
    }
}

/// The pieces on the `n` cells of row `y` that start at column `x`.
pub open spec fn run_pieces(m: Map<Coord, Piece>, x: int, y: int, n: nat) -> Seq<Piece> {
    Seq::new(n, |k: int| piece_at(m, x + k, y))
}

/// The groups of row `y` between the columns `x` and `max_x`, from left to
/// right: each is a stretch of occupied cells that a gap or the end of the row
/// closes.
pub open spec fn row_groups(m: Map<Coord, Piece>, x: int, y: int, max_x: int) -> Seq<Seq<Piece>>
    decreases max_x - x + 1,
    via row_groups_decreases
{
    if x > max_x {
        Seq::empty()
    } else if !occupied(m, x, y) {
        row_groups(m, x + 1, y, max_x)
    } else {
        let more = run_len(m, x + 1, y, max_x);
        seq![run_pieces(m, x, y, 1 + more)] + row_groups(m, x + 1 + more, y, max_x)
    }
}

#[via_fn]
proof fn row_groups_decreases(m: Map<Coord, Piece>, x: int, y: int, max_x: int) {
    if x <= max_x {
        lemma_run_len_bound(m, x + 1, y, max_x);
    }
}

/// A stretch does not reach beyond the last column.
proof fn lemma_run_len_bound(m: Map<Coord, Piece>, x: int, y: int, max_x: int)
    requires
        x <= max_x + 1,
    ensures
        run_len(m, x, y, max_x) <= max_x - x + 1,
    decreases max_x - x + 1,
{
    if x <= max_x && occupied(m, x, y) {
        lemma_run_len_bound(m, x + 1, y, max_x);
    }
}

/// The groups of the rows from `y` to the last row of the box `b`, row by row
/// from the top.
pub open spec fn grid_groups(m: Map<Coord, Piece>, y: int, b: Bounds) -> Seq<Seq<Piece>>
    decreases b.max_y - y + 1,
{
    if y > b.max_y {
        Seq::empty()
    } else {
        row_groups(m, b.min_x as int, y, b.max_x as int) + grid_groups(m, y + 1, b)
    }
}

/// The groups of a board: those of the rows of its bounding box, from the top
/// row down, and in a row from left to right. An empty board has none.
pub open spec fn board_groups(m: Map<Coord, Piece>) -> Seq<Seq<Piece>> {
    if m == Map::<Coord, Piece>::empty() {
        Seq::empty()
    } else {
        grid_groups(m, bounding_box(m).min_y as int, bounding_box(m))
    }
}

/// Whether every group of `gs` may stand.
pub open spec fn all_valid(gs: Seq<Seq<Piece>>) -> bool {
    forall|i: int| 0 <= i < gs.len() ==> valid_group(#[trigger] gs[i])
}

/// Whether a turn may end on the board `m`: every group on it may stand.
pub open spec fn valid_board(m: Map<Coord, Piece>) -> bool {
    all_valid(board_groups(m))
}

/// The pieces of each group of `gs`.
pub open spec fn group_views(gs: Seq<Group>) -> Seq<Seq<Piece>> {
    gs.map_values(|g: Group| g@)
}

/// A stretch of occupied cells that ends at a gap or at the end of the row has
/// the length of the stretch.
proof fn lemma_run_len(m: Map<Coord, Piece>, x: int, y: int, max_x: int, end: int)
    requires
        x <= end <= max_x + 1,
        forall|k: int| x <= k < end ==> occupied(m, k, y),
        end > max_x || !occupied(m, end, y),
    ensures
        run_len(m, x, y, max_x) == end - x,
    decreases end - x,
{
    if x < end {
        lemma_run_len(m, x + 1, y, max_x, end);
    }
}

/// The deck and the board of one game.
#[derive(Debug, PartialEq, Eq)]
pub struct Game {
    grid: Board,
    remaining_pieces: Vec<Piece>,
}

impl Game {
    /// The pieces that are still in the deck; the next one to be dealt is the
    /// last.
    pub closed spec fn pieces(&self) -> Seq<Piece> {
        self.remaining_pieces@
    }

    /// The pieces on the board.
    pub closed spec fn cells(&self) -> Map<Coord, Piece> {
        self.grid@
    }

    /// A game with an empty board and a full deck in random order.
    pub fn new() -> (g: Game)
        ensures
            g.cells() == Map::<Coord, Piece>::empty(),
            g.pieces().to_multiset() == full_deck().to_multiset(),
            g.pieces().len() == DECK_SIZE,
    {
        let mut game = Game { grid: Board::new(), remaining_pieces: Game::create_pieces() };
        game.shuffle();
        proof {
            game.pieces().to_multiset_ensures();
            full_deck().to_multiset_ensures();
        }
        game
    }

    /// Puts the deck into a random order.
    pub fn shuffle(&mut self)
        ensures
            final(self).pieces().to_multiset() == old(self).pieces().to_multiset(),
            final(self).pieces().len() == old(self).pieces().len(),
            final(self).cells() == old(self).cells(),
    {
        shuffle_pieces(&mut self.remaining_pieces);
        proof {
            self.pieces().to_multiset_ensures();
            old(self).pieces().to_multiset_ensures();
        }
    }

    /// The full deck in the order in which it is built.
    pub fn create_pieces() -> (pieces: Vec<Piece>)
        ensures
            pieces@ == full_deck(),
    {
        let mut pieces: Vec<Piece> = Vec::new();
        let mut i: u8 = 1;
        while i <= 13
            invariant
                1 <= i <= 14,
                pieces@.len() == 8 * (i - 1),
                forall|k: int| 0 <= k < pieces@.len() ==> #[trigger] pieces@[k] == full_deck()[k],
            decreases 14 - i,
        {
            let mut round: u8 = 0;
            while round < 2
                invariant
                    1 <= i <= 13,
                    0 <= round <= 2,
                    pieces@.len() == 8 * (i - 1) + 4 * round,
                    forall|k: int|
                        0 <= k < pieces@.len() ==> #[trigger] pieces@[k] == full_deck()[k],
                decreases 2 - round,
            {
                pieces.push(Piece::new(Color::Red, i));
                pieces.push(Piece::new(Color::Blue, i));
                pieces.push(Piece::new(Color::Yellow, i));
                pieces.push(Piece::new(Color::Black, i));
                round = round + 1;
            }
            i = i + 1;
        }
        assert(pieces@ =~= full_deck());
        pieces
    }

    /// The board, to change it in place.
    pub fn board_mut(&mut self) -> (board: &mut Board)
        ensures
            board@ == old(self).cells(),
            final(self).cells() == final(board)@,
            final(self).pieces() == old(self).pieces(),
    {
        &mut self.grid
    }

    /// The pieces that are still in the deck.
    pub fn remaining_pieces(&self) -> (pieces: &[Piece])
        ensures
            pieces@ == self.pieces(),
    {
        self.remaining_pieces.as_slice()
    }

    /// The board.
    pub fn board(&self) -> (board: &Board)
        ensures
            board@ == self.cells(),
    {
        &self.grid
    }

    /// Takes `count` pieces from the end of the deck, in the order in which
    /// they lay there; all that are left where the deck holds fewer.
    pub fn deal(&mut self, count: usize) -> (hand: Vec<Piece>)
        ensures
            count <= old(self).pieces().len() ==> hand@ == old(self).pieces().subrange(
                old(self).pieces().len() - count,
                old(self).pieces().len() as int,
            ) && final(self).pieces() == old(self).pieces().subrange(
                0,
                old(self).pieces().len() - count,
            ),
            count > old(self).pieces().len() ==> hand@ == old(self).pieces() && final(self).pieces() == Seq::<Piece>::empty(),
            final(self).cells() == old(self).cells(),
    {
        let n = self.remaining_pieces.len();
        if count > n {
            let hand = self.remaining_pieces.split_off(0);
            assert(hand@ =~= old(self).pieces());
            assert(self.pieces() =~= Seq::<Piece>::empty());
            hand
        } else {
            self.remaining_pieces.split_off(n - count)
        }
    }

    /// Takes the last piece from the deck; `None` where the deck is empty.
    pub fn deal_piece(&mut self) -> (piece: Option<Piece>)
        ensures
            old(self).pieces().len() == 0 ==> piece is None && final(self).pieces() == old(self).pieces(),
            old(self).pieces().len() > 0 ==> piece == Some(old(self).pieces().last()) && final(self).pieces() == old(self).pieces().drop_last(),
            final(self).cells() == old(self).cells(),
    {
        self.remaining_pieces.pop()
    }

    /// Replaces the board.
    pub fn set_board(&mut self, grid: Board)
        ensures
            final(self).cells() == grid@,
            final(self).pieces() == old(self).pieces(),
    {
        self.grid = grid;
    }

    /// Appends the groups of row `y` between the columns `min_x` and `max_x`.
    fn scan_row(&self, y: i32, min_x: i32, max_x: i32, groups: &mut Vec<Group>)
        ensures
            group_views(final(groups)@) == group_views(old(groups)@) + row_groups(
                self.cells(),
                min_x as int,
                y as int,
                max_x as int,
            ),
    {
        let ghost m = self.cells();
        let ghost base = group_views(groups@);
        let ghost total = row_groups(m, min_x as int, y as int, max_x as int);
        let ghost mut start: int = min_x as int;
        let mut cur: Vec<Piece> = Vec::new();
        let mut x: i64 = min_x as i64;
        assert(base + total =~= group_views(groups@) + row_groups(m, start, y as int, max_x as int));
        while x <= max_x as i64
            invariant
                m == self.cells(),
                min_x <= x,
                x <= max_x + 1 || x == min_x,
                min_x <= start <= x,
                cur@ == run_pieces(m, start, y as int, (x - start) as nat),
                forall|k: int| start <= k < x ==> occupied(m, k, y as int),
                group_views(groups@) + row_groups(m, start, y as int, max_x as int) == base
                    + total,
            decreases max_x - x + 1,
        {
            let c = Coord(x as i32, y);
            match self.grid.get(&c) {
                Some(p) => {
                    cur.push(p);
                    assert(cur@ =~= run_pieces(m, start, y as int, (x + 1 - start) as nat));
                },
                None => {
                    if cur.len() > 0 {
                        proof {
                            lemma_run_len(m, start, y as int, max_x as int, x as int);
                            assert(occupied(m, start, y as int));
                            assert(group_views(groups@.push(Group(cur))) =~= group_views(
                                groups@,
                            ).push(cur@));
                            assert(group_views(groups@).push(cur@) + row_groups(
                                m,
                                x as int,
                                y as int,
                                max_x as int,
                            ) =~= group_views(groups@) + row_groups(
                                m,
                                start,
                                y as int,
                                max_x as int,
                            ));
                        }
                        groups.push(Group(cur));
                        cur = Vec::new();
                    }
                    proof {
                        start = x + 1;
                        assert(cur@ =~= run_pieces(m, start, y as int, 0));
                    }
                },
            }
            x = x + 1;
        }
        if cur.len() > 0 {
            proof {
                lemma_run_len(m, start, y as int, max_x as int, x as int);
                assert(occupied(m, start, y as int));
                assert(row_groups(m, x as int, y as int, max_x as int) =~= Seq::empty());
                assert(group_views(groups@.push(Group(cur))) =~= group_views(groups@).push(cur@));
                assert(group_views(groups@).push(cur@) =~= group_views(groups@) + row_groups(
                    m,
                    start,
                    y as int,
                    max_x as int,
                ));
            }
            groups.push(Group(cur));
        } else {
            proof {
                assert(group_views(groups@) + row_groups(m, start, y as int, max_x as int)
                    =~= group_views(groups@));
            }
        }
    }

    /// Whether a turn may end on the board as it is, together with the groups
    /// that lie on it.
    pub fn is_valid_board(&self) -> (res: (bool, Vec<Group>))
        ensures
            group_views(res.1@) == board_groups(self.cells()),
            res.0 == valid_board(self.cells()),
    {
        let mut groups: Vec<Group> = Vec::new();
        let ghost m = self.cells();
        match self.grid.bounds() {
            None => {
                assert(group_views(groups@) =~= board_groups(m));
            },
            Some(b) => {
                let mut y: i64 = b.min_y as i64;
                assert(group_views(groups@) + grid_groups(m, y as int, b) =~= board_groups(m));
                while y <= b.max_y as i64
                    invariant
                        m == self.cells(),
                        b.min_y <= y <= b.max_y + 1,
                        b.min_y <= b.max_y,
                        group_views(groups@) + grid_groups(m, y as int, b) == board_groups(m),
                    decreases b.max_y - y + 1,
                {
                    let ghost before = group_views(groups@);
                    self.scan_row(y as i32, b.min_x, b.max_x, &mut groups);
                    proof {
                        let row = row_groups(m, b.min_x as int, y as int, b.max_x as int);
                        assert((before + row) + grid_groups(m, y + 1, b) =~= before + (row
                            + grid_groups(m, y + 1, b)));
                    }
                    y = y + 1;
                }
                assert(group_views(groups@) + grid_groups(m, y as int, b) =~= group_views(
                    groups@,
                ));
            },
        }
        let mut ok = true;
        let mut i: usize = 0;
        while i < groups.len()
            invariant
                i <= groups.len(),
                ok == forall|k: int| 0 <= k < i ==> valid_group(#[trigger] group_views(groups@)[k]),
            decreases groups.len() - i,
        {
            let v = groups[i].is_valid();
            assert(group_views(groups@)[i as int] == groups@[i as int]@);
            ok = ok && v;
            i = i + 1;
        }
        (ok, groups)
    }
}

impl Clone for Game {
    fn clone(&self) -> (g: Game)
        ensures
            g.cells() == self.cells(),
            g.pieces() == self.pieces(),
    {
        let mut pieces: Vec<Piece> = Vec::new();
        let mut i: usize = 0;
        while i < self.remaining_pieces.len()
            invariant
                i <= self.remaining_pieces@.len(),
                pieces@ == self.remaining_pieces@.subrange(0, i as int),
            decreases self.remaining_pieces.len() - i,
        {
            pieces.push(self.remaining_pieces[i]);
            assert(pieces@ =~= self.remaining_pieces@.subrange(0, i + 1));
            i = i + 1;
        }
        assert(pieces@ =~= self.remaining_pieces@);
        Game { grid: self.grid.clone(), remaining_pieces: pieces }
    }
}

impl Default for Game {
    fn default() -> (g: Game)
        ensures
            g.cells() == Map::<Coord, Piece>::empty(),
            g.pieces() == Seq::<Piece>::empty(),
    {
        Game { grid: Board::new(), remaining_pieces: Vec::new() }
    }
}

} // verus!
