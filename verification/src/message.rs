//! What clients and the server say to each other.

use vstd::prelude::*;

use crate::board::Board;
use crate::coord::Coord;
use crate::piece::Piece;

verus! {

/// The text of each string of `names`.
pub open spec fn texts(names: Seq<String>) -> Seq<Seq<char>> {
    names.map_values(|s: String| s@)
}

/// A copy of `pieces`.
pub fn copy_pieces(pieces: &Vec<Piece>) -> (out: Vec<Piece>)
    ensures
        out@ == pieces@,
{
    let mut out: Vec<Piece> = Vec::new();
    let mut i: usize = 0;
    while i < pieces.len()
        invariant
            i <= pieces@.len(),
            out@ == pieces@.subrange(0, i as int),
        decreases pieces.len() - i,
    {
        out.push(pieces[i]);
        assert(out@ =~= pieces@.subrange(0, i + 1));
        i = i + 1;
    }
    assert(out@ =~= pieces@);
    out
}

/// A copy of `names`.
pub fn copy_names(names: &Vec<String>) -> (out: Vec<String>)
    ensures
        out@ == names@,
{
    let mut out: Vec<String> = Vec::new();
    let mut i: usize = 0;
    while i < names.len()
        invariant
            i <= names@.len(),
            out@ == names@.subrange(0, i as int),
        decreases names.len() - i,
    {
        out.push(names[i].clone());
        assert(out@ =~= names@.subrange(0, i + 1));
        i = i + 1;
    }
    assert(out@ =~= names@);
    out
}

/// A message from a client.
#[derive(Debug, PartialEq, Eq)]
pub enum ClientMessage {
    CreateRoom(String),
    JoinRoom(String, String),
    Ready(String),
    Pickup(Coord, Piece),
    Place(Coord, Piece),
    EndTurn,
    Ping,
    Close,
}

/// What a client message says, its strings taken as texts.
pub enum ClientMessageView {
    CreateRoom(Seq<char>),
    JoinRoom(Seq<char>, Seq<char>),
    Ready(Seq<char>),
    Pickup(Coord, Piece),
    Place(Coord, Piece),
    EndTurn,
    Ping,
    Close,
}

impl View for ClientMessage {
    type V = ClientMessageView;

    open spec fn view(&self) -> ClientMessageView {
        match *self {
            ClientMessage::CreateRoom(name) => ClientMessageView::CreateRoom(name@),
            ClientMessage::JoinRoom(name, room) => ClientMessageView::JoinRoom(name@, room@),
            ClientMessage::Ready(name) => ClientMessageView::Ready(name@),
            ClientMessage::Pickup(coord, piece) => ClientMessageView::Pickup(coord, piece),
            ClientMessage::Place(coord, piece) => ClientMessageView::Place(coord, piece),
            ClientMessage::EndTurn => ClientMessageView::EndTurn,
            ClientMessage::Ping => ClientMessageView::Ping,
            ClientMessage::Close => ClientMessageView::Close,
        }
    }
}

impl Clone for ClientMessage {
    fn clone(&self) -> (out: ClientMessage)
        ensures
            out@ == self@,
    {
        match self {
            ClientMessage::CreateRoom(name) => ClientMessage::CreateRoom(name.clone()),
            ClientMessage::JoinRoom(name, room) => ClientMessage::JoinRoom(
                name.clone(),
                room.clone(),
            ),
            ClientMessage::Ready(name) => ClientMessage::Ready(name.clone()),
            ClientMessage::Pickup(coord, piece) => ClientMessage::Pickup(*coord, *piece),
            ClientMessage::Place(coord, piece) => ClientMessage::Place(*coord, *piece),
            ClientMessage::EndTurn => ClientMessage::EndTurn,
            ClientMessage::Ping => ClientMessage::Ping,
            ClientMessage::Close => ClientMessage::Close,
        }
    }
}

/// A message from the server.
#[derive(Debug, PartialEq, Eq)]
pub enum ServerMessage {
    JoinedRoom {
        room_name: String,
        players: Vec<String>,
        hand: Vec<Piece>,
        pieces_remaining: usize,
        board: Board,
    },
    StartGame,
    StartTurn,
    CurrentPlayer(usize),
    PlayerJoined(String),
    PlayerDisconnected(usize),
    PlayerReconnected(usize),
    GameAlreadyStarted(String),
    DrawPiece(Piece),
    TurnFinished {
        ending_player: String,
        ending_drew: bool,
        next_player: usize,
        pieces_remaining: usize,
        board: Board,
    },
    PlayerWon(String),
    EndTurnValid,
    Pickup(Coord, Piece),
    Place(Coord, Piece),
    InvalidBoardState,
    Pong,
}

/// What a server message says: its strings taken as texts, its lists as
/// sequences, its board as a map from cells to pieces.
pub enum ServerMessageView {
    JoinedRoom {
        room_name: Seq<char>,
        players: Seq<Seq<char>>,
        hand: Seq<Piece>,
        pieces_remaining: nat,
        board: Map<Coord, Piece>,
    },
    StartGame,
    StartTurn,
    CurrentPlayer(nat),
    PlayerJoined(Seq<char>),
    PlayerDisconnected(nat),
    PlayerReconnected(nat),
    GameAlreadyStarted(Seq<char>),
    DrawPiece(Piece),
    TurnFinished {
        ending_player: Seq<char>,
        ending_drew: bool,
        next_player: nat,
        pieces_remaining: nat,
        board: Map<Coord, Piece>,
    },
    PlayerWon(Seq<char>),
    EndTurnValid,
    Pickup(Coord, Piece),
    Place(Coord, Piece),
    InvalidBoardState,
    Pong,
}

impl View for ServerMessage {
    type V = ServerMessageView;

    open spec fn view(&self) -> ServerMessageView {
        match *self {
            ServerMessage::JoinedRoom { room_name, players, hand, pieces_remaining, board } => {
                ServerMessageView::JoinedRoom {
                    room_name: room_name@,
                    players: texts(players@),
                    hand: hand@,
                    pieces_remaining: pieces_remaining as nat,
                    board: board@,
                }
            },
            ServerMessage::StartGame => ServerMessageView::StartGame,
            ServerMessage::StartTurn => ServerMessageView::StartTurn,
            ServerMessage::CurrentPlayer(index) => ServerMessageView::CurrentPlayer(index as nat),
            ServerMessage::PlayerJoined(name) => ServerMessageView::PlayerJoined(name@),
            ServerMessage::PlayerDisconnected(index) => ServerMessageView::PlayerDisconnected(
                index as nat,
            ),
            ServerMessage::PlayerReconnected(index) => ServerMessageView::PlayerReconnected(
                index as nat,
            ),
            ServerMessage::GameAlreadyStarted(room) => ServerMessageView::GameAlreadyStarted(
                room@,
            ),
            ServerMessage::DrawPiece(piece) => ServerMessageView::DrawPiece(piece),
            ServerMessage::TurnFinished {
                ending_player,
                ending_drew,
                next_player,
                pieces_remaining,
                board,
            } => ServerMessageView::TurnFinished {
                ending_player: ending_player@,
                ending_drew,
                next_player: next_player as nat,
                pieces_remaining: pieces_remaining as nat,
                board: board@,
            },
            ServerMessage::PlayerWon(name) => ServerMessageView::PlayerWon(name@),
            ServerMessage::EndTurnValid => ServerMessageView::EndTurnValid,
            ServerMessage::Pickup(coord, piece) => ServerMessageView::Pickup(coord, piece),
            ServerMessage::Place(coord, piece) => ServerMessageView::Place(coord, piece),
            ServerMessage::InvalidBoardState => ServerMessageView::InvalidBoardState,
            ServerMessage::Pong => ServerMessageView::Pong,
        }
    }
}

impl Clone for ServerMessage {
    fn clone(&self) -> (out: ServerMessage)
        ensures
            out@ == self@,
    {
        match self {
            ServerMessage::JoinedRoom { room_name, players, hand, pieces_remaining, board } => {
                ServerMessage::JoinedRoom {
                    room_name: room_name.clone(),
                    players: copy_names(players),
                    hand: copy_pieces(hand),
                    pieces_remaining: *pieces_remaining,
                    board: board.clone(),
                }
            },
            ServerMessage::StartGame => ServerMessage::StartGame,
            ServerMessage::StartTurn => ServerMessage::StartTurn,
            ServerMessage::CurrentPlayer(index) => ServerMessage::CurrentPlayer(*index),
            ServerMessage::PlayerJoined(name) => ServerMessage::PlayerJoined(name.clone()),
            ServerMessage::PlayerDisconnected(index) => ServerMessage::PlayerDisconnected(*index),
            ServerMessage::PlayerReconnected(index) => ServerMessage::PlayerReconnected(*index),
            ServerMessage::GameAlreadyStarted(room) => ServerMessage::GameAlreadyStarted(
                room.clone(),
            ),
            ServerMessage::DrawPiece(piece) => ServerMessage::DrawPiece(*piece),
            ServerMessage::TurnFinished {
                ending_player,
                ending_drew,
                next_player,
                pieces_remaining,
                board,
            } => ServerMessage::TurnFinished {
                ending_player: ending_player.clone(),
                ending_drew: *ending_drew,
                next_player: *next_player,
                pieces_remaining: *pieces_remaining,
                board: board.clone(),
            },
            ServerMessage::PlayerWon(name) => ServerMessage::PlayerWon(name.clone()),
            ServerMessage::EndTurnValid => ServerMessage::EndTurnValid,
            ServerMessage::Pickup(coord, piece) => ServerMessage::Pickup(*coord, *piece),
            ServerMessage::Place(coord, piece) => ServerMessage::Place(*coord, *piece),
            ServerMessage::InvalidBoardState => ServerMessage::InvalidBoardState,
            ServerMessage::Pong => ServerMessage::Pong,
        }
    }
}

/// One message on its way to one player.
#[derive(Debug, PartialEq, Eq)]
pub struct Outgoing {
    /// The place of the player in the room's list.
    pub to: usize,
    pub msg: ServerMessage,
}

/// A message and the place of the player that is to get it.
pub struct OutgoingView {
    pub to: nat,
    pub msg: ServerMessageView,
}

impl View for Outgoing {
    type V = OutgoingView;

    open spec fn view(&self) -> OutgoingView {
        OutgoingView { to: self.to as nat, msg: self.msg@ }
    }
}

/// What each message of `out` says, and to whom.
pub open spec fn outgoing_views(out: Seq<Outgoing>) -> Seq<OutgoingView> {
    out.map_values(|o: Outgoing| o@)
}

} // verus!
