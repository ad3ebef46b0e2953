//! One room: the players that sit in it, the game they play, and whose turn
//! it is.
//!
//! The room does no sending of its own. Each event is handed to it together
//! with the connection it came from; the room changes its state and hands
//! back the messages that are owed, each with the place of the player that is
//! to get it, in the order in which they are to be sent.

use std::collections::HashMap;
use vstd::prelude::*;

use crate::coord::Coord;
use crate::game::{full_deck, Game, DECK_SIZE};
use crate::laws::{
    is_next_connected_after, lemma_join_conserves, lemma_send_failure_conserves,
    lemma_step_conserves, lemma_turn_passes_on, moves_piece_for_piece, passes_turn, wins_by,
    Event,
};
use crate::message::{
    copy_pieces, outgoing_views, texts, ClientMessage, Outgoing, OutgoingView, ServerMessage,
    ServerMessageView,
};
use crate::piece::Piece;
use crate::player::{names_of, player_views, Player, PlayerView};
use crate::transition::{
    advance, any_connected, broadcast_to, broadcast_upto, has_returning, is_returning,
    lemma_join_wf, lemma_next_connected, lemma_send_failure_wf, lemma_step_wf, next_connected,
    returning_place, send, steps_to_connected, RoomView, OPENING_HAND,
};

verus! {

broadcast use vstd::std_specs::hash::group_hash_axioms;

/// Appends `msg` for player `to`.
fn push_out(out: &mut Vec<Outgoing>, to: usize, msg: ServerMessage)
    ensures
        outgoing_views(final(out)@) == outgoing_views(old(out)@).push(send(to as int, msg@)),
{
    out.push(Outgoing { to, msg });
    assert(outgoing_views(out@) =~= outgoing_views(old(out)@).push(send(to as int, msg@)));
}

/// A room.
pub struct Room {
    name: String,
    started: bool,
    ended: bool,
    connections: HashMap<u64, usize>,
    players: Vec<Player>,
    active_player: usize,
    active_delta: i64,
    game: Game,
}

impl View for Room {
    type V = RoomView;

    closed spec fn view(&self) -> RoomView {
        RoomView {
            name: self.name@,
            started: self.started,
            ended: self.ended,
            connections: self.connections@,
            players: player_views(self.players@),
            active_player: self.active_player as nat,
            turn_delta: self.active_delta as int,
            deck: self.game.pieces(),
            board: self.game.cells(),
        }
    }
}

impl Room {
    /// Whether the room is in order.
    pub open spec fn wf(&self) -> bool {
        self@.wf()
    }

    /// An empty room with a fresh game: no name, no player, an empty board
    /// and a full deck in random order.
    pub fn new() -> (room: Room)
        ensures
            room.wf(),
            room@.name == Seq::<char>::empty(),
            !room@.started,
            !room@.ended,
            room@.connections == Map::<u64, usize>::empty(),
            room@.players == Seq::<PlayerView>::empty(),
            room@.active_player == 0,
            room@.turn_delta == 0,
            room@.board == Map::<Coord, Piece>::empty(),
            room@.deck.to_multiset() == full_deck().to_multiset(),
            room@.deck.len() == DECK_SIZE,
            room@.piece_total() == DECK_SIZE,
    {
        let game = Game::new();
        let room = Room {
            name: String::new(),
            started: false,
            ended: false,
            connections: HashMap::new(),
            players: Vec::new(),
            active_player: 0,
            active_delta: 0,
            game,
        };
        assert(room@.players =~= Seq::<PlayerView>::empty());
        assert(room@.board.len() == 0);
        room
    }

    /// Whether the game of this room has started.
    pub fn has_started(&self) -> (started: bool)
        ensures
            started == self@.started,
    {
        self.started
    }

    /// Whether the room has ended: a player has won, or the last one left.
    pub fn has_ended(&self) -> (ended: bool)
        ensures
            ended == self@.ended,
    {
        self.ended
    }

    /// The code under which the room is known.
    pub fn name(&self) -> (name: &str)
        ensures
            name@ == self@.name,
    {
        self.name.as_str()
    }

    /// Gives the room the code under which it is known.
    pub fn set_name(&mut self, name: String)
        ensures
            final(self)@ == (RoomView { name: name@, ..old(self)@ }),
    {
        self.name = name;
    }

    /// Marks the game of this room as started.
    pub fn start(&mut self)
        ensures
            final(self)@ == (RoomView { started: true, ..old(self)@ }),
    {
        self.started = true;
    }

    /// The players in the order in which they joined.
    pub fn players(&self) -> (players: &Vec<Player>)
        ensures
            player_views(players@) == self@.players,
    {
        &self.players
    }

    /// The place of the player whose turn it is.
    pub fn active_player(&self) -> (who: usize)
        ensures
            who == self@.active_player,
    {
        self.active_player
    }

    /// Pieces placed less pieces picked up in the running turn.
    pub fn turn_delta(&self) -> (delta: i64)
        ensures
            delta == self@.turn_delta,
    {
        self.active_delta
    }

    /// The game of the room.
    pub fn game(&self) -> (game: &Game)
        ensures
            game.pieces() == self@.deck,
            game.cells() == self@.board,
    {
        &self.game
    }

    /// The place of the player behind the connection `conn`.
    pub fn player_of(&self, conn: u64) -> (who: Option<usize>)
        ensures
            who == (if self@.connections.contains_key(conn) {
                Some(self@.connections[conn])
            } else {
                None
            }),
    {
        match self.connections.get(&conn) {
            Some(who) => Some(*who),
            None => None,
        }
    }

    /// The names of the players, in their order.
    fn names(&self) -> (names: Vec<String>)
        ensures
            texts(names@) == names_of(self@.players),
    {
        let mut names: Vec<String> = Vec::new();
        let mut i: usize = 0;
        while i < self.players.len()
            invariant
                i <= self.players@.len(),
                names@.len() == i,
                forall|k: int| 0 <= k < i ==> (#[trigger] names@[k])@ == self.players@[k].name@,
            decreases self.players.len() - i,
        {
            names.push(self.players[i].name.clone());
            i = i + 1;
        }
        assert(texts(names@) =~= names_of(self@.players));
        names
    }

    /// Appends `msg` for each connected player, in the order of the places.
    fn broadcast_into(&self, msg: &ServerMessage, out: &mut Vec<Outgoing>)
        ensures
            outgoing_views(final(out)@) == outgoing_views(old(out)@) + broadcast_to(
                self@.players,
                msg@,
            ),
    {
        let ghost before = outgoing_views(out@);
        let ghost players = self@.players;
        let mut i: usize = 0;
        assert(before + broadcast_upto(players, msg@, 0) =~= before);
        while i < self.players.len()
            invariant
                i <= self.players@.len(),
                players == self@.players,
                outgoing_views(out@) == before + broadcast_upto(players, msg@, i as nat),
            decreases self.players.len() - i,
        {
            if self.players[i].connected {
                push_out(out, i, msg.clone());
                assert((before + broadcast_upto(players, msg@, i as nat)).push(
                    send(i as int, msg@),
                ) =~= before + broadcast_upto(players, msg@, (i + 1) as nat));
            }
            i = i + 1;
        }
    }

    /// `msg` for each connected player, in the order of the places.
    pub fn broadcast(&self, msg: &ServerMessage) -> (out: Vec<Outgoing>)
        ensures
            outgoing_views(out@) == broadcast_to(self@.players, msg@),
    {
        let mut out: Vec<Outgoing> = Vec::new();
        assert(outgoing_views(out@) =~= Seq::<OutgoingView>::empty());
        self.broadcast_into(msg, &mut out);
        assert(Seq::<OutgoingView>::empty() + broadcast_to(self@.players, msg@)
            =~= broadcast_to(self@.players, msg@));
        out
    }

    /// Whether no player is connected.
    fn all_disconnected(&self) -> (none: bool)
        ensures
            none == !any_connected(self@.players),
    {
        let mut i: usize = 0;
        while i < self.players.len()
            invariant
                i <= self.players@.len(),
                forall|k: int| 0 <= k < i ==> !(#[trigger] self@.players[k]).connected,
            decreases self.players.len() - i,
        {
            if self.players[i].connected {
                assert(self@.players[i as int].connected);
                return false;
            }
            i = i + 1;
        }
        true
    }

    /// The first connected player from place `start` on, round the table.
    fn find_connected(&self, start: usize) -> (who: usize)
        requires
            start < self@.players.len(),
        ensures
            who == next_connected(self@.players, start as int),
            who < self@.players.len(),
    {
        let n = self.players.len();
        let ghost players = self@.players;
        let mut i: usize = start;
        let mut k: usize = 0;
        while k < n && !self.players[i].connected
            invariant
                n == players.len(),
                players == self@.players,
                i < n,
                k <= n,
                next_connected(players, start as int) == advance(
                    i as int,
                    n as int,
                    steps_to_connected(players, i as int, (n - k) as nat),
                ),
            decreases n - k,
        {
            i = if i + 1 >= n {
                0
            } else {
                i + 1
            };
            k = k + 1;
        }
        proof {
            lemma_next_connected(players, start as int);
        }
        i
    }

    /// The place of the first player named `name` that is not connected.
    fn find_returning(&self, name: &String) -> (found: Option<usize>)
        ensures
            found is Some == has_returning(self@.players, name@),
            found matches Some(who) ==> who == returning_place(self@.players, name@)
                && is_returning(self@.players, name@, who as int),
    {
        let mut i: usize = 0;
        while i < self.players.len()
            invariant
                i <= self.players@.len(),
                forall|j: int|
                    0 <= j < i ==> !(self@.players[j].name == name@ && !self@.players[j].connected),
            decreases self.players.len() - i,
        {
            if !self.players[i].connected && self.players[i].name == *name {
                proof {
                    let players = self@.players;
                    assert(is_returning(players, name@, i as int));
                    let other = returning_place(players, name@);
                    assert(is_returning(players, name@, other));
                    if other < i {
                        assert(!(players[other].name == name@ && !players[other].connected));
                    }
                    if i < other {
                        assert(!(players[i as int].name == name@ && !players[i as int].connected));
                    }
                }
                return Some(i);
            }
            i = i + 1;
        }
        proof {
            let players = self@.players;
            if has_returning(players, name@) {
                let other = returning_place(players, name@);
                assert(is_returning(players, name@, other));
                assert(!(players[other].name == name@ && !players[other].connected));
            }
        }
        None
    }

    /// The snapshot of the room for player `who`.
    fn joined_room(&self, who: usize) -> (msg: ServerMessage)
        requires
            who < self@.players.len(),
        ensures
            msg@ == self@.joined_room(who as int),
    {
        ServerMessage::JoinedRoom {
            room_name: self.name.clone(),
            players: self.names(),
            hand: copy_pieces(&self.players[who].hand),
            pieces_remaining: self.game.remaining_pieces().len(),
            board: self.game.board().clone(),
        }
    }

    /// The report of a turn that `ending_player` ended.
    fn turn_finished(&self, ending_player: String, ending_drew: bool) -> (msg: ServerMessage)
        ensures
            msg@ == self@.turn_finished(ending_player@, ending_drew),
    {
        ServerMessage::TurnFinished {
            ending_player,
            ending_drew,
            next_player: self.active_player,
            pieces_remaining: self.game.remaining_pieces().len(),
            board: self.game.board().clone(),
        }
    }

    /// Seats the connection `conn` under `name` and hands back the messages
    /// that this sends: a player of that name who is not connected takes the
    /// seat back, anyone else joins as a new player with an opening hand.
    pub fn add_player(&mut self, conn: u64, name: &str) -> (out: Vec<Outgoing>)
        requires
            old(self).wf(),
        ensures
            final(self).wf(),
            final(self)@ == old(self)@.join(conn, name@).room,
            outgoing_views(out@) == old(self)@.join(conn, name@).out,
            final(self)@.piece_total() == old(self)@.piece_total(),
    {
        proof {
            lemma_join_conserves(self@, conn, name@);
        }
        let owned = name.to_owned();
        let mut out: Vec<Outgoing> = Vec::new();
        let ghost before = self@;
        assert(outgoing_views(out@) =~= Seq::<OutgoingView>::empty());
        match self.find_returning(&owned) {
            Some(who) => {
                let stale = self.players[who].conn;
                let leads_here = match self.connections.get(&stale) {
                    Some(other) => *other == who,
                    None => false,
                };
                if leads_here {
                    self.connections.remove(&stale);
                }
                self.connections.insert(conn, who);
                self.players[who].connected = true;
                self.players[who].conn = conn;
                assert(self@ =~= before.join(conn, name@).room);
                let snapshot = self.joined_room(who);
                push_out(&mut out, who, snapshot);
                push_out(&mut out, who, ServerMessage::CurrentPlayer(self.active_player));
                let back = ServerMessage::PlayerReconnected(who);
                self.broadcast_into(&back, &mut out);
                assert(outgoing_views(out@) =~= before.join(conn, name@).out);
                proof {
                    lemma_join_wf(before, conn, name@);
                }
            },
            None => {
                let who = self.players.len();
                if self.started {
                    push_out(&mut out, who, ServerMessage::GameAlreadyStarted(self.name.clone()));
                }
                let joined = ServerMessage::PlayerJoined(owned.clone());
                self.broadcast_into(&joined, &mut out);
                let hand = self.game.deal(OPENING_HAND);
                let ghost seat = PlayerView { name: name@, connected: true, hand: hand@, conn };
                self.players.push(Player::new(owned, hand, conn));
                self.connections.insert(conn, who);
                assert(self@.players =~= before.players.push(seat));
                assert(self@.deck =~= before.join(conn, name@).room.deck);
                assert(seat.hand =~= before.join(conn, name@).room.players[who as int].hand);
                assert(self@.players =~= before.join(conn, name@).room.players);
                assert(self@ =~= before.join(conn, name@).room);
                let snapshot = self.joined_room(who);
                push_out(&mut out, who, snapshot);
                assert(outgoing_views(out@) =~= before.join(conn, name@).out);
                proof {
                    assert(self.players.len() == before.players.len() + 1);
                    lemma_join_wf(before, conn, name@);
                }
            },
        }
        out
    }

    /// Player `who` has lost the connection.
    fn on_close(&mut self, who: usize) -> (res: (bool, Vec<Outgoing>))
        requires
            old(self).wf(),
            who < old(self)@.players.len(),
        ensures
            final(self)@ == old(self)@.close(who as int).room,
            outgoing_views(res.1@) == old(self)@.close(who as int).out,
            res.0 == old(self)@.close(who as int).running,
    {
        let ghost before = self@;
        let mut out: Vec<Outgoing> = Vec::new();
        assert(outgoing_views(out@) =~= Seq::<OutgoingView>::empty());
        self.players[who].connected = false;
        let ghost gone = PlayerView { connected: false, ..before.players[who as int] };
        assert(self@ =~= before.with_player(who as int, gone));
        let told = ServerMessage::PlayerDisconnected(who);
        self.broadcast_into(&told, &mut out);
        if self.all_disconnected() {
            self.ended = true;
            assert(self@ =~= before.close(who as int).room);
            assert(outgoing_views(out@) =~= before.close(who as int).out);
            return (false, out);
        }
        if self.active_player == who {
            self.active_player = self.find_connected(who);
            assert(self@ =~= before.close(who as int).room);
            push_out(&mut out, self.active_player, ServerMessage::StartTurn);
            let report = self.turn_finished(self.players[who].name.clone(), false);
            self.broadcast_into(&report, &mut out);
            assert(outgoing_views(out@) =~= before.close(who as int).out);
        } else {
            assert(outgoing_views(out@) =~= before.close(who as int).out);
        }
        (true, out)
    }

    /// The player whose turn it is takes `piece` from `coord`.
    fn on_pickup(&mut self, who: usize, coord: Coord, piece: Piece) -> (res: (
        bool,
        Vec<Outgoing>,
    ))
        requires
            who < old(self)@.players.len(),
            i64::MIN < old(self)@.turn_delta,
        ensures
            final(self)@ == old(self)@.pickup(who as int, coord, piece).room,
            outgoing_views(res.1@) == old(self)@.pickup(who as int, coord, piece).out,
            res.0 == old(self)@.pickup(who as int, coord, piece).running,
    {
        let ghost before = self@;
        let mut out: Vec<Outgoing> = Vec::new();
        assert(outgoing_views(out@) =~= Seq::<OutgoingView>::empty());
        let _ = self.game.board_mut().remove(&coord);
        self.players[who].hand.push(piece);
        self.active_delta = self.active_delta - 1;
        assert(self@ =~= before.pickup(who as int, coord, piece).room);
        let told = ServerMessage::Pickup(coord, piece);
        self.broadcast_into(&told, &mut out);
        assert(outgoing_views(out@) =~= before.pickup(who as int, coord, piece).out);
        (true, out)
    }

    /// The player whose turn it is puts `piece` on `coord`.
    fn on_place(&mut self, who: usize, coord: Coord, piece: Piece) -> (res: (
        bool,
        Vec<Outgoing>,
    ))
        requires
            who < old(self)@.players.len(),
            old(self)@.turn_delta < i64::MAX,
        ensures
            final(self)@ == old(self)@.place(who as int, coord, piece).room,
            outgoing_views(res.1@) == old(self)@.place(who as int, coord, piece).out,
            res.0 == old(self)@.place(who as int, coord, piece).running,
    {
        let ghost before = self@;
        let mut out: Vec<Outgoing> = Vec::new();
        assert(outgoing_views(out@) =~= Seq::<OutgoingView>::empty());
        let _ = self.game.board_mut().insert(coord, piece);
        self.active_delta = self.active_delta + 1;
        let _ = self.players[who].take_from_hand(piece);
        assert(self@ =~= before.place(who as int, coord, piece).room);
        let told = ServerMessage::Place(coord, piece);
        self.broadcast_into(&told, &mut out);
        assert(outgoing_views(out@) =~= before.place(who as int, coord, piece).out);
        (true, out)
    }

    /// The player whose turn it is asks to end it.
    fn on_end_turn(&mut self, who: usize) -> (res: (bool, Vec<Outgoing>))
        requires
            old(self).wf(),
            !old(self)@.ended,
            who == old(self)@.active_player,
            who < old(self)@.players.len(),
        ensures
            final(self)@ == old(self)@.end_turn(who as int).room,
            outgoing_views(res.1@) == old(self)@.end_turn(who as int).out,
            res.0 == old(self)@.end_turn(who as int).running,
    {
        let ghost before = self@;
        let mut out: Vec<Outgoing> = Vec::new();
        assert(outgoing_views(out@) =~= Seq::<OutgoingView>::empty());
        let (valid, _groups) = self.game.is_valid_board();
        if !valid {
            push_out(&mut out, who, ServerMessage::InvalidBoardState);
            assert(outgoing_views(out@) =~= before.end_turn(who as int).out);
            return (true, out);
        }
        let mut drew = self.active_delta == 0;
        if drew {
            match self.game.deal_piece() {
                Some(piece) => {
                    self.players[who].hand.push(piece);
                    push_out(&mut out, who, ServerMessage::DrawPiece(piece));
                },
                None => {
                    drew = false;
                },
            }
        }
        assert(drew == before.draws());
        if !drew && self.players[who].hand.len() == 0 {
            let won = ServerMessage::PlayerWon(self.players[who].name.clone());
            self.broadcast_into(&won, &mut out);
            self.ended = true;
            assert(self@ =~= before.end_turn(who as int).room);
            assert(outgoing_views(out@) =~= before.end_turn(who as int).out);
            return (false, out);
        }
        push_out(&mut out, who, ServerMessage::EndTurnValid);
        self.active_delta = 0;
        let start = if who + 1 >= self.players.len() {
            0
        } else {
            who + 1
        };
        self.active_player = self.find_connected(start);
        assert(self@.players =~= before.end_turn(who as int).room.players);
        assert(self@.deck =~= before.end_turn(who as int).room.deck);
        assert(self@ =~= before.end_turn(who as int).room);
        push_out(&mut out, self.active_player, ServerMessage::StartTurn);
        let report = self.turn_finished(self.players[who].name.clone(), drew);
        self.broadcast_into(&report, &mut out);
        assert(outgoing_views(out@) =~= before.end_turn(who as int).out);
        (true, out)
    }

    /// Takes note that a message for player `who` could not be handed over:
    /// a player who counts as connected is treated as one who has lost the
    /// connection, so that the others go on playing.
    pub fn on_send_failure(&mut self, who: usize) -> (res: (bool, Vec<Outgoing>))
        requires
            old(self).wf(),
        ensures
            final(self).wf(),
            final(self)@ == old(self)@.send_failure(who as int).room,
            outgoing_views(res.1@) == old(self)@.send_failure(who as int).out,
            res.0 == old(self)@.send_failure(who as int).running,
            final(self)@.piece_total() == old(self)@.piece_total(),
    {
        proof {
            lemma_send_failure_wf(self@, who as int);
            lemma_send_failure_conserves(self@, who as int);
        }
        let out: Vec<Outgoing> = Vec::new();
        assert(outgoing_views(out@) =~= Seq::<OutgoingView>::empty());
        if self.ended {
            return (false, out);
        }
        if who < self.players.len() && self.players[who].connected {
            self.on_close(who)
        } else {
            (true, out)
        }
    }

    /// Takes the event `msg` that came over the connection `conn`: changes
    /// the room as the rules say, and hands back whether the room goes on and
    /// the messages to send.
    pub fn on_message(&mut self, conn: u64, msg: ClientMessage) -> (res: (bool, Vec<Outgoing>))
        requires
            old(self).wf(),
            msg@ is Pickup ==> i64::MIN < old(self)@.turn_delta,
            msg@ is Place ==> old(self)@.turn_delta < i64::MAX,
        ensures
            final(self).wf(),
            final(self)@ == old(self)@.step(conn, msg@).room,
            outgoing_views(res.1@) == old(self)@.step(conn, msg@).out,
            res.0 == old(self)@.step(conn, msg@).running,
            moves_piece_for_piece(old(self)@, Event { conn, msg: msg@ }) ==> final(self)@.piece_total() == old(self)@.piece_total(),
            passes_turn(old(self)@, Event { conn, msg: msg@ }) ==> is_next_connected_after(
                final(self)@.players,
                old(self)@.active_player as int,
                final(self)@.active_player as int,
            ),
            wins_by(old(self)@, Event { conn, msg: msg@ }) ==> !res.0 && final(self)@.ended
                && outgoing_views(res.1@) == broadcast_to(
                old(self)@.players,
                ServerMessageView::PlayerWon(
                    old(self)@.players[old(self)@.active_player as int].name,
                ),
            ),
    {
        proof {
            lemma_step_wf(self@, conn, msg@);
            if moves_piece_for_piece(self@, Event { conn, msg: msg@ }) {
                lemma_step_conserves(self@, Event { conn, msg: msg@ });
            }
            if passes_turn(self@, Event { conn, msg: msg@ }) {
                lemma_turn_passes_on(self@, Event { conn, msg: msg@ });
            }
        }
        let mut out: Vec<Outgoing> = Vec::new();
        assert(outgoing_views(out@) =~= Seq::<OutgoingView>::empty());
        if self.ended {
            return (false, out);
        }
        let who = match self.connections.get(&conn) {
            Some(who) => *who,
            None => {
                return (true, out);
            },
        };
        match msg {
            ClientMessage::Ping => {
                push_out(&mut out, who, ServerMessage::Pong);
                assert(outgoing_views(out@) =~= old(self)@.step(conn, msg@).out);
                (true, out)
            },
            ClientMessage::Close => self.on_close(who),
            ClientMessage::EndTurn => {
                if who == self.active_player {
                    self.on_end_turn(who)
                } else {
                    (true, out)
                }
            },
            ClientMessage::Pickup(coord, piece) => {
                if who == self.active_player {
                    self.on_pickup(who, coord, piece)
                } else {
                    (true, out)
                }
            },
            ClientMessage::Place(coord, piece) => {
                if who == self.active_player {
                    self.on_place(who, coord, piece)
                } else {
                    (true, out)
                }
            },
            _ => (true, out),
        }
    }
}

} // verus!
