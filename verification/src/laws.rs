//! What holds of a room over whole games.

use vstd::prelude::*;

use crate::game::valid_board;
use crate::message::{ClientMessageView, ServerMessageView};
use crate::piece::Piece;
use crate::player::{lemma_first_place, take_piece, PlayerView};
use crate::transition::{
    advance, any_connected, broadcast_to, broadcast_upto, has_returning, is_returning,
    lemma_advance_is_modular, lemma_hands_total_push, lemma_hands_total_update,
    lemma_next_connected, lemma_step_wf, returning_place, steps_to_connected, wrap_next,
    RoomView,
};

verus! {

/// One event as it reaches a room: the connection it came over, and what it
/// says.
pub struct Event {
    pub conn: u64,
    pub msg: ClientMessageView,
}

/// Whether the event moves a piece for a piece. A move of the player whose
/// turn it is does so where it finds the board as the player believes it to
/// be: a pickup from a cell that holds a piece; a placement of a piece of the
/// hand on an empty cell, or of a piece that is not in the hand on a cell
/// that holds one. Every other event does.
pub open spec fn moves_piece_for_piece(room: RoomView, event: Event) -> bool {
    if room.ended || !room.connections.contains_key(event.conn) || room.connections[event.conn]
        != room.active_player {
        true
    } else {
        match event.msg {
            ClientMessageView::Pickup(coord, _) => room.board.contains_key(coord),
            ClientMessageView::Place(coord, piece) => room.board.contains_key(coord)
                != room.players[room.active_player as int].hand.contains(piece),
            _ => true,
        }
    }
}

/// The room after the events of `events`, one after the other.
pub open spec fn after_events(room: RoomView, events: Seq<Event>) -> RoomView
    decreases events.len(),
{
    if events.len() == 0 {
        room
    } else {
        after_events(room, events.drop_last()).step(events.last().conn, events.last().msg).room
    }
}

/// Whether each event of `events` moves a piece for a piece in the room that
/// it finds.
pub open spec fn all_move_piece_for_piece(room: RoomView, events: Seq<Event>) -> bool
    decreases events.len(),
{
    events.len() > 0 ==> all_move_piece_for_piece(room, events.drop_last())
        && moves_piece_for_piece(after_events(room, events.drop_last()), events.last())
}

/// Taking a piece out of a hand makes the hand one piece shorter where it
/// holds the piece, and leaves it as it is where not.
pub proof fn lemma_take_piece_len(hand: Seq<Piece>, piece: Piece)
    ensures
        take_piece(hand, piece).len() == (if hand.contains(piece) {
            hand.len() - 1
        } else {
            hand.len() as int
        }),
{
    lemma_first_place(hand, piece);
}

/// An event that moves a piece for a piece leaves the number of pieces in
/// deck, hands and board as it was.
pub proof fn lemma_step_conserves(room: RoomView, event: Event)
    requires
        room.wf(),
        moves_piece_for_piece(room, event),
    ensures
        room.step(event.conn, event.msg).room.piece_total() == room.piece_total(),
{
    let after = room.step(event.conn, event.msg).room;
    if !room.ended && room.connections.contains_key(event.conn) {
        let who = room.connections[event.conn] as int;
        match event.msg {
            ClientMessageView::Close => {
                let gone = PlayerView { connected: false, ..room.players[who] };
                lemma_hands_total_update(room.players, who, gone);
            },
            ClientMessageView::EndTurn => {
                if who == room.active_player {
                    lemma_hands_total_update(room.players, who, after.players[who]);
                    assert(after.players =~= room.players.update(who, after.players[who]));
                }
            },
            ClientMessageView::Pickup(coord, piece) => {
                if who == room.active_player {
                    lemma_hands_total_update(room.players, who, after.players[who]);
                }
            },
            ClientMessageView::Place(coord, piece) => {
                if who == room.active_player {
                    lemma_take_piece_len(room.players[who].hand, piece);
                    lemma_hands_total_update(room.players, who, after.players[who]);
                }
            },
            _ => {},
        }
    }
}

/// A message that could not be handed over leaves the number of pieces in
/// deck, hands and board as it was.
pub proof fn lemma_send_failure_conserves(room: RoomView, who: int)
    requires
        room.wf(),
    ensures
        room.send_failure(who).room.piece_total() == room.piece_total(),
{
    if !room.ended && 0 <= who < room.players.len() && room.players[who].connected {
        let gone = PlayerView { connected: false, ..room.players[who] };
        lemma_hands_total_update(room.players, who, gone);
    }
}

/// A seat taken leaves the number of pieces in deck, hands and board as it
/// was: an opening hand comes out of the deck.
pub proof fn lemma_join_conserves(room: RoomView, conn: u64, name: Seq<char>)
    requires
        room.wf(),
    ensures
        room.join(conn, name).room.piece_total() == room.piece_total(),
{
    let after = room.join(conn, name).room;
    if has_returning(room.players, name) {
        let who = returning_place(room.players, name);
        assert(is_returning(room.players, name, who));
        lemma_hands_total_update(room.players, who, after.players[who]);
    } else {
        lemma_hands_total_push(room.players, after.players.last());
    }
}

/// Conservation: over any sequence of events of which each moves a piece for
/// a piece, the number of pieces in deck, hands and board stays what it was,
/// and the room stays in order.
pub proof fn lemma_events_conserve(room: RoomView, events: Seq<Event>)
    requires
        room.wf(),
        all_move_piece_for_piece(room, events),
    ensures
        after_events(room, events).wf(),
        after_events(room, events).piece_total() == room.piece_total(),
    decreases events.len(),
{
    if events.len() > 0 {
        lemma_events_conserve(room, events.drop_last());
        let before = after_events(room, events.drop_last());
        lemma_step_wf(before, events.last().conn, events.last().msg);
        lemma_step_conserves(before, events.last());
    }
}

/// Every message of a broadcast is the message that was broadcast.
pub proof fn lemma_broadcast_says(players: Seq<PlayerView>, msg: ServerMessageView, n: nat)
    requires
        n <= players.len(),
    ensures
        forall|i: int|
            0 <= i < broadcast_upto(players, msg, n).len() ==> (#[trigger] broadcast_upto(
                players,
                msg,
                n,
            )[i]).msg == msg,
    decreases n,
{
    if n > 0 {
        lemma_broadcast_says(players, msg, (n - 1) as nat);
    }
}

/// Whether the event is the end of a turn by which the player whose turn it
/// is wins: it comes from that player, in a room that goes on, on a board
/// that may stand, without a draw and with an empty hand.
pub open spec fn wins_by(room: RoomView, event: Event) -> bool {
    &&& !room.ended
    &&& room.connections.contains_key(event.conn)
    &&& room.connections[event.conn] == room.active_player
    &&& event.msg is EndTurn
    &&& room.wins(room.active_player as int)
}

/// The win: where the player whose turn it is ends it on a board that may
/// stand, with an empty hand and without a draw, the room ends, and all that
/// is sent is the news of the win to each connected player. A room that has
/// ended changes no more and sends nothing, so no report of a turn follows.
pub proof fn lemma_win_is_final(room: RoomView, conn: u64, later: Event)
    requires
        room.wf(),
        wins_by(room, Event { conn, msg: ClientMessageView::EndTurn }),
    ensures
        ({
            let won = room.step(conn, ClientMessageView::EndTurn);
            let name = room.players[room.active_player as int].name;
            &&& !won.running
            &&& won.room.ended
            &&& won.out == broadcast_to(room.players, ServerMessageView::PlayerWon(name))
            &&& forall|i: int|
                0 <= i < won.out.len() ==> (#[trigger] won.out[i]).msg
                    == ServerMessageView::PlayerWon(name)
            &&& won.room.step(later.conn, later.msg).room == won.room
            &&& won.room.step(later.conn, later.msg).out.len() == 0
            &&& !won.room.step(later.conn, later.msg).running
        }),
{
    let name = room.players[room.active_player as int].name;
    lemma_broadcast_says(room.players, ServerMessageView::PlayerWon(name), room.players.len());
}

/// The place `k` steps after place `a` round the table of `n`.
pub open spec fn seat_after(a: int, k: int, n: int) -> int {
    (a + k) % n
}

/// Whether `next` is the first connected player after place `a` round the
/// table: a connected player, reached in no more steps than there are
/// players, every player passed on the way not connected.
pub open spec fn is_next_connected_after(players: Seq<PlayerView>, a: int, next: int) -> bool {
    exists|k: int|
        1 <= k <= players.len() && next == #[trigger] seat_after(a, k, players.len() as int)
            && players[next].connected && forall|j: int|
            1 <= j < k ==> !players[#[trigger] seat_after(a, j, players.len() as int)].connected
}

/// Whether the event makes the turn pass on: it comes from the player whose
/// turn it is, in a room that goes on, and is the loss of the connection or
/// the end of a turn on a board that may stand, without a win; and a player
/// is connected afterwards.
pub open spec fn passes_turn(room: RoomView, event: Event) -> bool {
    &&& !room.ended
    &&& room.connections.contains_key(event.conn)
    &&& room.connections[event.conn] == room.active_player
    &&& event.msg is Close || (event.msg is EndTurn && valid_board(room.board) && !room.wins(
        room.active_player as int,
    ))
    &&& any_connected(room.step(event.conn, event.msg).room.players)
}

/// Turn advancement: where the turn passes on, it passes to the first
/// connected player after the one who had it, round the table. No player that
/// is not connected is selected, none that is connected is skipped, and the
/// search ends within as many steps as there are players.
pub proof fn lemma_turn_passes_on(room: RoomView, event: Event)
    requires
        room.wf(),
        passes_turn(room, event),
    ensures
        is_next_connected_after(
            room.step(event.conn, event.msg).room.players,
            room.active_player as int,
            room.step(event.conn, event.msg).room.active_player as int,
        ),
{
    let after = room.step(event.conn, event.msg).room;
    let players = after.players;
    let a = room.active_player as int;
    let n = players.len() as int;
    let next = after.active_player as int;
    assert(n == room.players.len());
    if event.msg is Close {
        let s = steps_to_connected(players, a, players.len());
        lemma_next_connected(players, a);
        assert(!players[a].connected);
        assert(next == seat_after(a, s as int, n));
        assert forall|j: int| 1 <= j < s implies !players[#[trigger] seat_after(
            a,
            j,
            n,
        )].connected by {
            lemma_advance_is_modular(a, n, j as nat);
            assert(!players[advance(a, n, j as nat)].connected);
        }
    } else {
        let start = wrap_next(a, n);
        let s = steps_to_connected(players, start, players.len());
        lemma_next_connected(players, start);
        if a + 1 >= n {
            vstd::arithmetic::div_mod::lemma_mod_add_multiples_vanish(s as int, n);
        }
        assert(next == seat_after(a, (s + 1) as int, n));
        assert forall|j: int| 1 <= j < s + 1 implies !players[#[trigger] seat_after(
            a,
            j,
            n,
        )].connected by {
            lemma_advance_is_modular(start, n, (j - 1) as nat);
            if a + 1 >= n {
                vstd::arithmetic::div_mod::lemma_mod_add_multiples_vanish(j - 1, n);
            }
            assert(!players[advance(start, n, (j - 1) as nat)].connected);
        }
    }
}

} // verus!
