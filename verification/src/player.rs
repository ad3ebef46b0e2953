//! One participant of a room.

use vstd::prelude::*;

use crate::piece::Piece;

verus! {

/// What is known of a player: the name, whether a connection is open, the
/// hand, and the connection that carries the player's messages.
#[verifier::ext_equal]
pub struct PlayerView {
    pub name: Seq<char>,
    pub connected: bool,
    pub hand: Seq<Piece>,
    pub conn: u64,
}

/// A player. The place in the room's list is the player's identity and the
/// slot in the order of turns.
#[derive(Debug, PartialEq, Eq)]
pub struct Player {
    pub name: String,
    pub connected: bool,
    pub hand: Vec<Piece>,
    pub conn: u64,
}

impl View for Player {
    type V = PlayerView;

    open spec fn view(&self) -> PlayerView {
        PlayerView {
            name: self.name@,
            connected: self.connected,
            hand: self.hand@,
            conn: self.conn,
        }
    }
}

/// Whether `i` is the first place of `hand` that holds `piece`.
pub open spec fn is_first_place_of(hand: Seq<Piece>, piece: Piece, i: int) -> bool {
    &&& 0 <= i < hand.len()
    &&& hand[i] == piece
    &&& forall|j: int| 0 <= j < i ==> hand[j] != piece
}

/// The hand without the first `piece` in it, the last piece of the hand moved
/// into the gap; the hand itself where it holds no such piece.
pub open spec fn take_piece(hand: Seq<Piece>, piece: Piece) -> Seq<Piece> {
    if exists|i: int| is_first_place_of(hand, piece, i) {
        let i = choose|i: int| is_first_place_of(hand, piece, i);
        hand.update(i, hand.last()).drop_last()
    } else {
        hand
    }
}

/// A hand holds a piece exactly where the piece has a first place in it.
pub proof fn lemma_first_place(hand: Seq<Piece>, piece: Piece)
    ensures
        hand.contains(piece) <==> exists|i: int| is_first_place_of(hand, piece, i),
        forall|i: int, j: int|
            is_first_place_of(hand, piece, i) && is_first_place_of(hand, piece, j) ==> i == j,
{
    if hand.contains(piece) {
        let k = choose|k: int| 0 <= k < hand.len() && hand[k] == piece;
        lemma_first_place_below(hand, piece, k);
    }
    if exists|i: int| is_first_place_of(hand, piece, i) {
        let i = choose|i: int| is_first_place_of(hand, piece, i);
        assert(hand[i] == piece);
    }
}

proof fn lemma_first_place_below(hand: Seq<Piece>, piece: Piece, k: int)
    requires
        0 <= k < hand.len(),
        hand[k] == piece,
    ensures
        exists|i: int| is_first_place_of(hand, piece, i),
    decreases k,
{
    if exists|j: int| 0 <= j < k && hand[j] == piece {
        let j = choose|j: int| 0 <= j < k && hand[j] == piece;
        lemma_first_place_below(hand, piece, j);
    } else {
        assert(is_first_place_of(hand, piece, k));
    }
}

impl Player {
    /// A connected player with the given name, hand and connection.
    pub fn new(name: String, hand: Vec<Piece>, conn: u64) -> (p: Player)
        ensures
            p@ == (PlayerView { name: name@, connected: true, hand: hand@, conn }),
    {
        Player { name, connected: true, hand, conn }
    }

    /// Adds a piece at the end of the hand.
    pub fn add_to_hand(&mut self, piece: Piece)
        ensures
            final(self)@ == (PlayerView { hand: old(self)@.hand.push(piece), ..old(self)@ }),
    {
        self.hand.push(piece);
    }

    /// The hand, to change it in place.
    pub fn hand_mut(&mut self) -> (hand: &mut Vec<Piece>)
        ensures
            hand@ == old(self)@.hand,
            final(self)@ == (PlayerView { hand: final(hand)@, ..old(self)@ }),
    {
        &mut self.hand
    }

    /// Takes the first `piece` out of the hand, if the hand holds one, and
    /// says whether it did.
    pub fn take_from_hand(&mut self, piece: Piece) -> (found: bool)
        ensures
            found == old(self)@.hand.contains(piece),
            final(self)@ == (PlayerView { hand: take_piece(old(self)@.hand, piece), ..old(self)@ }),
    {
        proof {
            lemma_first_place(self@.hand, piece);
        }
        let mut i: usize = 0;
        while i < self.hand.len()
            invariant
                i <= self.hand@.len(),
                self.hand@ == old(self).hand@,
                self.name == old(self).name,
                self.connected == old(self).connected,
                self.conn == old(self).conn,
                forall|j: int| 0 <= j < i ==> self.hand@[j] != piece,
            decreases self.hand.len() - i,
        {
            if self.hand[i] == piece {
                assert(is_first_place_of(self.hand@, piece, i as int));
                self.hand.swap_remove(i);
                assert(self.hand@ =~= take_piece(old(self)@.hand, piece));
                return true;
            }
            i = i + 1;
        }
        false
    }
}

/// What is known of each player of `players`.
pub open spec fn player_views(players: Seq<Player>) -> Seq<PlayerView> {
    players.map_values(|p: Player| p@)
}

/// The names of `players`, in their order.
pub open spec fn names_of(players: Seq<PlayerView>) -> Seq<Seq<char>> {
    players.map_values(|p: PlayerView| p.name)
}

/// The number of pieces in the hands of `players`.
pub open spec fn hands_total(players: Seq<PlayerView>) -> nat
    decreases players.len(),
{
    if players.len() == 0 {
        0
    } else {
        hands_total(players.drop_last()) + players.last().hand.len()
    }
}

} // verus!
