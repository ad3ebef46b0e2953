//! The rules of a room as a state machine: what each event changes in the
//! room and which messages it sends.

use vstd::prelude::*;

use crate::coord::Coord;
use crate::game::valid_board;
use crate::message::{ClientMessageView, OutgoingView, ServerMessageView};
use crate::piece::Piece;
use crate::player::{hands_total, names_of, take_piece, PlayerView};

verus! {

/// The number of pieces that a new player is dealt.
pub const OPENING_HAND: usize = 28;

/// The state of a room.
#[verifier::ext_equal]
pub struct RoomView {
    /// The code under which the room is known.
    pub name: Seq<char>,
    pub started: bool,
    /// Set once a player has won or the last player has left.
    pub ended: bool,
    /// The place of the player behind each connection.
    pub connections: Map<u64, usize>,
    /// The players in the order in which they joined.
    pub players: Seq<PlayerView>,
    /// The place of the player whose turn it is.
    pub active_player: nat,
    /// Pieces placed less pieces picked up in the running turn.
    pub turn_delta: int,
    pub deck: Seq<Piece>,
    pub board: Map<Coord, Piece>,
}

/// What one event does: the room after it, the messages it sends, and
/// whether the room goes on.
#[verifier::ext_equal]
pub struct Step {
    pub room: RoomView,
    pub out: Seq<OutgoingView>,
    pub running: bool,
}

/// The message `msg` for player `to`.
pub open spec fn send(to: int, msg: ServerMessageView) -> OutgoingView {
    OutgoingView { to: to as nat, msg }
}

/// `msg` for each connected player among the first `n`, in the order of their
/// places.
pub open spec fn broadcast_upto(players: Seq<PlayerView>, msg: ServerMessageView, n: nat) -> Seq<
    OutgoingView,
>
    decreases n,
{
    if n == 0 {
        Seq::empty()
    } else {
        let rest = broadcast_upto(players, msg, (n - 1) as nat);
        if players[n - 1].connected {
            rest.push(send(n - 1, msg))
        } else {
            rest
        }
    }
}

/// `msg` for each connected player, in the order of their places.
pub open spec fn broadcast_to(players: Seq<PlayerView>, msg: ServerMessageView) -> Seq<
    OutgoingView,
> {
    broadcast_upto(players, msg, players.len())
}

/// Whether a player is connected.
pub open spec fn any_connected(players: Seq<PlayerView>) -> bool {
    exists|i: int| 0 <= i < players.len() && (#[trigger] players[i]).connected
}

/// The place after `i` among `n`, the first place following the last.
pub open spec fn wrap_next(i: int, n: int) -> int {
    if i + 1 >= n {
        0
    } else {
        i + 1
    }
}

/// The place reached from `i` by `k` steps round the table of `n`.
pub open spec fn advance(i: int, n: int, k: nat) -> int
    decreases k,
{
    if k == 0 {
        i
    } else {
        advance(wrap_next(i, n), n, (k - 1) as nat)
    }
}

/// The number of steps from `i` to the first connected player, `i` itself
/// taken first, and no more than `tries`.
pub open spec fn steps_to_connected(players: Seq<PlayerView>, i: int, tries: nat) -> nat
    decreases tries,
{
    if tries == 0 || players[i].connected {
        0
    } else {
        1 + steps_to_connected(players, wrap_next(i, players.len() as int), (tries - 1) as nat)
    }
}

/// The first connected player from place `start` on, round the table:
/// `start` itself where that player is connected. The search gives up after
/// as many steps as there are players.
pub open spec fn next_connected(players: Seq<PlayerView>, start: int) -> int {
    advance(start, players.len() as int, steps_to_connected(players, start, players.len()))
}

/// The steps from place `i` forward to place `j` round the table of `n`.
pub open spec fn distance(i: int, j: int, n: int) -> int {
    if j >= i {
        j - i
    } else {
        j + n - i
    }
}

/// Steps round the table stay at the table.
pub proof fn lemma_advance_in_range(i: int, n: int, k: nat)
    requires
        0 <= i < n,
    ensures
        0 <= advance(i, n, k) < n,
    decreases k,
{
    if k > 0 {
        lemma_advance_in_range(wrap_next(i, n), n, (k - 1) as nat);
    }
}

/// Steps round the table count on places modulo the number of players.
pub proof fn lemma_advance_is_modular(i: int, n: int, k: nat)
    requires
        0 <= i < n,
    ensures
        advance(i, n, k) == (i + k) % n,
    decreases k,
{
    if k == 0 {
        vstd::arithmetic::div_mod::lemma_small_mod(i as nat, n as nat);
    } else {
        lemma_advance_is_modular(wrap_next(i, n), n, (k - 1) as nat);
        if i + 1 >= n {
            vstd::arithmetic::div_mod::lemma_mod_add_multiples_vanish(k - 1, n);
        }
    }
}

/// The search passes only players that are not connected, and takes no more
/// steps than it is given.
pub proof fn lemma_search_skips(players: Seq<PlayerView>, i: int, tries: nat)
    requires
        0 <= i < players.len(),
    ensures
        steps_to_connected(players, i, tries) <= tries,
        forall|k: nat|
            k < steps_to_connected(players, i, tries) ==> !players[#[trigger] advance(
                i,
                players.len() as int,
                k,
            )].connected,
    decreases tries,
{
    let n = players.len() as int;
    if tries > 0 && !players[i].connected {
        lemma_search_skips(players, wrap_next(i, n), (tries - 1) as nat);
        let s = steps_to_connected(players, i, tries);
        assert forall|k: nat| k < s implies !players[#[trigger] advance(i, n, k)].connected by {
            if k > 0 {
                assert(advance(i, n, k) == advance(wrap_next(i, n), n, (k - 1) as nat));
            }
        }
    }
}

/// A connected player within reach of the search is found, or one before
/// that player.
pub proof fn lemma_search_finds(players: Seq<PlayerView>, i: int, tries: nat, j: int)
    requires
        0 <= i < players.len(),
        0 <= j < players.len(),
        players[j].connected,
        distance(i, j, players.len() as int) < tries,
    ensures
        steps_to_connected(players, i, tries) <= distance(i, j, players.len() as int),
        players[advance(
            i,
            players.len() as int,
            steps_to_connected(players, i, tries),
        )].connected,
    decreases tries,
{
    let n = players.len() as int;
    if !players[i].connected {
        lemma_search_finds(players, wrap_next(i, n), (tries - 1) as nat, j);
    }
}

/// Passing the turn on never selects a player that is not connected while
/// one is connected, and finds that player in fewer steps than there are
/// players; every player passed on the way is not connected.
pub proof fn lemma_next_connected(players: Seq<PlayerView>, start: int)
    requires
        0 <= start < players.len(),
    ensures
        0 <= next_connected(players, start) < players.len(),
        next_connected(players, start) == (start + steps_to_connected(
            players,
            start,
            players.len(),
        )) % (players.len() as int),
        steps_to_connected(players, start, players.len()) <= players.len(),
        forall|k: nat|
            k < steps_to_connected(players, start, players.len()) ==> !players[#[trigger] advance(
                start,
                players.len() as int,
                k,
            )].connected,
        any_connected(players) ==> players[next_connected(players, start)].connected
            && steps_to_connected(players, start, players.len()) < players.len(),
{
    let n = players.len() as int;
    lemma_advance_in_range(start, n, steps_to_connected(players, start, players.len()));
    lemma_advance_is_modular(start, n, steps_to_connected(players, start, players.len()));
    lemma_search_skips(players, start, players.len());
    if any_connected(players) {
        let j = choose|j: int| 0 <= j < players.len() && (#[trigger] players[j]).connected;
        lemma_search_finds(players, start, players.len(), j);
    }
}

/// Whether `i` is the first place of a player named `name` that is not
/// connected.
pub open spec fn is_returning(players: Seq<PlayerView>, name: Seq<char>, i: int) -> bool {
    &&& 0 <= i < players.len()
    &&& players[i].name == name
    &&& !players[i].connected
    &&& forall|j: int| 0 <= j < i ==> !(players[j].name == name && !players[j].connected)
}

/// Whether some player named `name` is not connected.
pub open spec fn has_returning(players: Seq<PlayerView>, name: Seq<char>) -> bool {
    exists|i: int| is_returning(players, name, i)
}

/// The first place of a player named `name` that is not connected.
pub open spec fn returning_place(players: Seq<PlayerView>, name: Seq<char>) -> int {
    choose|i: int| is_returning(players, name, i)
}

/// The connections without the one that player `who` had, where it still
/// leads to that player.
pub open spec fn drop_stale(connections: Map<u64, usize>, stale: u64, who: int) -> Map<
    u64,
    usize,
> {
    if connections.contains_key(stale) && connections[stale] == who {
        connections.remove(stale)
    } else {
        connections
    }
}

impl RoomView {
    /// What holds of every room: a connection leads to a player of the room
    /// who knows it as their own; the turn is with a player of the room; and
    /// while the room goes on, that player is connected. The board holds
    /// finitely many pieces, and the places of the players fit a machine
    /// word.
    pub open spec fn wf(self) -> bool {
        &&& self.connections.dom().finite()
        &&& self.board.dom().finite()
        &&& self.players.len() <= usize::MAX
        &&& forall|c: u64| #[trigger]
            self.connections.contains_key(c) ==> self.connections[c] < self.players.len()
                && self.players[self.connections[c] as int].conn == c
        &&& self.players.len() == 0 ==> self.active_player == 0
        &&& self.players.len() > 0 ==> self.active_player < self.players.len()
        &&& !self.ended && self.players.len() > 0 ==> self.players[self.active_player as int].connected
    }

    /// All pieces of the room: in the deck, in the hands and on the board.
    pub open spec fn piece_total(self) -> nat {
        self.deck.len() + hands_total(self.players) + self.board.len()
    }

    /// The snapshot that player `who` is sent on joining.
    pub open spec fn joined_room(self, who: int) -> ServerMessageView {
        ServerMessageView::JoinedRoom {
            room_name: self.name,
            players: names_of(self.players),
            hand: self.players[who].hand,
            pieces_remaining: self.deck.len(),
            board: self.board,
        }
    }

    /// The report of a turn that `ending_player` ended, in a room that has
    /// the turn at its next player already.
    pub open spec fn turn_finished(self, ending_player: Seq<char>, ending_drew: bool) -> ServerMessageView {
        ServerMessageView::TurnFinished {
            ending_player,
            ending_drew,
            next_player: self.active_player,
            pieces_remaining: self.deck.len(),
            board: self.board,
        }
    }

    /// The room with player `who` replaced by `player`.
    pub open spec fn with_player(self, who: int, player: PlayerView) -> RoomView {
        RoomView { players: self.players.update(who, player), ..self }
    }

    /// Nothing happens.
    pub open spec fn idle(self) -> Step {
        Step { room: self, out: Seq::empty(), running: true }
    }

    /// A connection asks for a seat under `name`.
    ///
    /// Where a player of that name is not connected, the first such player
    /// takes the seat back: the connection replaces the one the player had,
    /// the player gets a snapshot of the room and is told whose turn it is,
    /// and all connected players hear of the return. Otherwise a new player
    /// joins at the end of the list with an opening hand from the deck: in a
    /// room that has started the newcomer is told so first, the connected
    /// players hear of the newcomer, and the newcomer gets a snapshot.
    pub open spec fn join(self, conn: u64, name: Seq<char>) -> Step {
        if has_returning(self.players, name) {
            let who = returning_place(self.players, name);
            let back = PlayerView { connected: true, conn, ..self.players[who] };
            let room = RoomView {
                connections: drop_stale(self.connections, self.players[who].conn, who).insert(
                    conn,
                    who as usize,
                ),
                ..self.with_player(who, back)
            };
            Step {
                room,
                out: seq![
                    send(who, room.joined_room(who)),
                    send(who, ServerMessageView::CurrentPlayer(self.active_player)),
                ] + broadcast_to(room.players, ServerMessageView::PlayerReconnected(who as nat)),
                running: true,
            }
        } else {
            let who = self.players.len() as int;
            let count = if OPENING_HAND <= self.deck.len() {
                OPENING_HAND as int
            } else {
                self.deck.len() as int
            };
            let hand = self.deck.subrange(self.deck.len() - count, self.deck.len() as int);
            let room = RoomView {
                connections: self.connections.insert(conn, who as usize),
                players: self.players.push(PlayerView { name, connected: true, hand, conn }),
                deck: self.deck.subrange(0, self.deck.len() - count),
                ..self
            };
            let told = if self.started {
                seq![send(who, ServerMessageView::GameAlreadyStarted(self.name))]
            } else {
                Seq::empty()
            };
            Step {
                room,
                out: told + broadcast_to(self.players, ServerMessageView::PlayerJoined(name))
                    + seq![send(who, room.joined_room(who))],
                running: true,
            }
        }
    }

    /// Player `who` has lost the connection.
    ///
    /// The player is marked and the connected players hear of it. Where
    /// nobody is connected any more the room ends. Where the turn was with
    /// that player it passes to the next connected player, who is told to
    /// start, and all connected players get the report of a turn that ended
    /// without a draw.
    pub open spec fn close(self, who: int) -> Step {
        let gone = PlayerView { connected: false, ..self.players[who] };
        let left = self.with_player(who, gone);
        let told = broadcast_to(left.players, ServerMessageView::PlayerDisconnected(who as nat));
        if !any_connected(left.players) {
            Step { room: RoomView { ended: true, ..left }, out: told, running: false }
        } else if self.active_player == who {
            let room = RoomView {
                active_player: next_connected(left.players, who) as nat,
                ..left
            };
            Step {
                room,
                out: told.push(send(room.active_player as int, ServerMessageView::StartTurn))
                    + broadcast_to(room.players, room.turn_finished(self.players[who].name, false)),
                running: true,
            }
        } else {
            Step { room: left, out: told, running: true }
        }
    }

    /// The player whose turn it is takes `piece` from `coord` into the hand.
    /// The cell is cleared whatever lay on it.
    pub open spec fn pickup(self, who: int, coord: Coord, piece: Piece) -> Step {
        let holder = PlayerView {
            hand: self.players[who].hand.push(piece),
            ..self.players[who]
        };
        let room = RoomView {
            board: self.board.remove(coord),
            turn_delta: self.turn_delta - 1,
            ..self.with_player(who, holder)
        };
        Step {
            room,
            out: broadcast_to(room.players, ServerMessageView::Pickup(coord, piece)),
            running: true,
        }
    }

    /// The player whose turn it is puts `piece` on `coord`. The first such
    /// piece leaves the hand, if the hand holds one.
    pub open spec fn place(self, who: int, coord: Coord, piece: Piece) -> Step {
        let holder = PlayerView {
            hand: take_piece(self.players[who].hand, piece),
            ..self.players[who]
        };
        let room = RoomView {
            board: self.board.insert(coord, piece),
            turn_delta: self.turn_delta + 1,
            ..self.with_player(who, holder)
        };
        Step {
            room,
            out: broadcast_to(room.players, ServerMessageView::Place(coord, piece)),
            running: true,
        }
    }

    /// Whether the player who ends a turn now draws: no piece came to the
    /// board on balance, and the deck holds one.
    pub open spec fn draws(self) -> bool {
        self.turn_delta == 0 && self.deck.len() > 0
    }

    /// Whether player `who` wins by ending the turn now: the board may stand,
    /// no piece is drawn and the hand is empty.
    pub open spec fn wins(self, who: int) -> bool {
        valid_board(self.board) && !self.draws() && self.players[who].hand.len() == 0
    }

    /// The player whose turn it is asks to end it.
    ///
    /// On a board that may not stand the player is told so and nothing
    /// changes. Otherwise the player draws where a draw is due. A player who
    /// did not draw and holds no piece has won: all connected players are
    /// told and the room ends. Else the turn is confirmed and passes to the
    /// next connected player, who is told to start, and all connected players
    /// get the report of the turn.
    pub open spec fn end_turn(self, who: int) -> Step {
        if !valid_board(self.board) {
            Step {
                room: self,
                out: seq![send(who, ServerMessageView::InvalidBoardState)],
                running: true,
            }
        } else if self.wins(who) {
            Step {
                room: RoomView { ended: true, ..self },
                out: broadcast_to(
                    self.players,
                    ServerMessageView::PlayerWon(self.players[who].name),
                ),
                running: false,
            }
        } else {
            let drew = self.draws();
            let holder = if drew {
                PlayerView {
                    hand: self.players[who].hand.push(self.deck.last()),
                    ..self.players[who]
                }
            } else {
                self.players[who]
            };
            let players = self.players.update(who, holder);
            let room = RoomView {
                players,
                deck: if drew {
                    self.deck.drop_last()
                } else {
                    self.deck
                },
                turn_delta: 0,
                active_player: next_connected(players, wrap_next(who, players.len() as int)) as nat,
                ..self
            };
            let drawn = if drew {
                seq![send(who, ServerMessageView::DrawPiece(self.deck.last()))]
            } else {
                Seq::empty()
            };
            Step {
                room,
                out: drawn.push(send(who, ServerMessageView::EndTurnValid)).push(
                    send(room.active_player as int, ServerMessageView::StartTurn),
                ) + broadcast_to(room.players, room.turn_finished(self.players[who].name, drew)),
                running: true,
            }
        }
    }

    /// A message for player `who` could not be handed over.
    ///
    /// In a room that goes on, a player who counts as connected is treated
    /// as one who has lost the connection. Anything else changes nothing.
    pub open spec fn send_failure(self, who: int) -> Step {
        if self.ended {
            Step { room: self, out: Seq::empty(), running: false }
        } else if 0 <= who < self.players.len() && self.players[who].connected {
            self.close(who)
        } else {
            self.idle()
        }
    }

    /// What the event `msg` from connection `conn` does.
    ///
    /// A room that has ended takes no event. An event from a connection that
    /// the room does not know changes nothing, and so does a move from a
    /// player whose turn it is not.
    pub open spec fn step(self, conn: u64, msg: ClientMessageView) -> Step {
        if self.ended {
            Step { room: self, out: Seq::empty(), running: false }
        } else if !self.connections.contains_key(conn) {
            self.idle()
        } else {
            let who = self.connections[conn] as int;
            match msg {
                ClientMessageView::Ping => Step {
                    room: self,
                    out: seq![send(who, ServerMessageView::Pong)],
                    running: true,
                },
                ClientMessageView::Close => self.close(who),
                ClientMessageView::EndTurn => if who == self.active_player {
                    self.end_turn(who)
                } else {
                    self.idle()
                },
                ClientMessageView::Pickup(coord, piece) => if who == self.active_player {
                    self.pickup(who, coord, piece)
                } else {
                    self.idle()
                },
                ClientMessageView::Place(coord, piece) => if who == self.active_player {
                    self.place(who, coord, piece)
                } else {
                    self.idle()
                },
                _ => self.idle(),
            }
        }
    }
}

/// A seat taken keeps the room in order, as long as the place of a new player
/// fits a machine word.
pub proof fn lemma_join_wf(room: RoomView, conn: u64, name: Seq<char>)
    requires
        room.wf(),
        has_returning(room.players, name) || room.players.len() < usize::MAX,
    ensures
        room.join(conn, name).room.wf(),
{
    let after = room.join(conn, name).room;
    if has_returning(room.players, name) {
        assert(is_returning(room.players, name, returning_place(room.players, name)));
    }
    assert forall|c: u64| #[trigger] after.connections.contains_key(c) implies
        after.connections[c] < after.players.len()
        && after.players[after.connections[c] as int].conn == c by {
        if c != conn {
            assert(room.connections.contains_key(c));
        }
    }
}

/// A lost connection keeps the room in order.
pub proof fn lemma_close_wf(room: RoomView, who: int)
    requires
        room.wf(),
        0 <= who < room.players.len(),
    ensures
        room.close(who).room.wf(),
{
    let after = room.close(who).room;
    let gone = PlayerView { connected: false, ..room.players[who] };
    let left = room.with_player(who, gone);
    assert forall|c: u64| #[trigger] after.connections.contains_key(c) implies
        after.connections[c] < after.players.len()
        && after.players[after.connections[c] as int].conn == c by {
        assert(room.connections.contains_key(c));
        assert(room.players[room.connections[c] as int].conn == c);
    }
    if any_connected(left.players) && room.active_player == who {
        lemma_next_connected(left.players, who);
    }
}

/// A message that could not be handed over keeps the room in order.
pub proof fn lemma_send_failure_wf(room: RoomView, who: int)
    requires
        room.wf(),
    ensures
        room.send_failure(who).room.wf(),
{
    if !room.ended && 0 <= who < room.players.len() && room.players[who].connected {
        lemma_close_wf(room, who);
    }
}

/// An event keeps the room in order.
pub proof fn lemma_step_wf(room: RoomView, conn: u64, msg: ClientMessageView)
    requires
        room.wf(),
    ensures
        room.step(conn, msg).room.wf(),
{
    let after = room.step(conn, msg).room;
    if !room.ended && room.connections.contains_key(conn) {
        let who = room.connections[conn] as int;
        assert(after.connections == room.connections);
        assert(after.players.len() == room.players.len());
        assert forall|c: u64| #[trigger] after.connections.contains_key(c) implies
            after.connections[c] < after.players.len()
            && after.players[after.connections[c] as int].conn == c by {
            assert(room.connections.contains_key(c));
            assert(room.players[room.connections[c] as int].conn == c);
        }
        match msg {
            ClientMessageView::Close => {
                lemma_close_wf(room, who);
            },
            ClientMessageView::EndTurn => {
                if who == room.active_player && valid_board(room.board) && !room.wins(who) {
                    let players = after.players;
                    assert(players[who].connected);
                    lemma_next_connected(players, wrap_next(who, players.len() as int));
                }
            },
            _ => {},
        }
    }
}

/// Replacing a player changes the number of pieces in the hands by what the
/// hand of that player gains or loses.
pub proof fn lemma_hands_total_update(players: Seq<PlayerView>, who: int, player: PlayerView)
    requires
        0 <= who < players.len(),
    ensures
        hands_total(players.update(who, player)) == hands_total(players) - players[who].hand.len()
            + player.hand.len(),
    decreases players.len(),
{
    let after = players.update(who, player);
    if who == players.len() - 1 {
        assert(after.drop_last() =~= players.drop_last());
    } else {
        assert(after.drop_last() =~= players.drop_last().update(who, player));
        lemma_hands_total_update(players.drop_last(), who, player);
    }
}

/// A player more adds the hand of that player to the pieces in the hands.
pub proof fn lemma_hands_total_push(players: Seq<PlayerView>, player: PlayerView)
    ensures
        hands_total(players.push(player)) == hands_total(players) + player.hand.len(),
{
    assert(players.push(player).drop_last() =~= players);
}

} // verus!
