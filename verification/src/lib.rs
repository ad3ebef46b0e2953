//! Rules and room engine of a tile-rummy game played over a shared grid.
//!
//! The crate holds the game's data (pieces, coordinates, the board, the deck),
//! the rule that decides whether a board may stand at the end of a turn, and
//! the state machine of one room: who is seated, whose turn it is, and what is
//! sent to whom after each event.

pub mod piece;
pub mod decimal;
pub mod coord;
pub mod board;
pub mod group;
pub mod random;
pub mod game;
pub mod message;
pub mod player;
pub mod transition;
pub mod laws;
pub mod room;
pub mod registry;

pub use crate::board::{Board, Bounds};
pub use crate::coord::Coord;
pub use crate::game::Game;
pub use crate::group::Group;
pub use crate::message::{ClientMessage, Outgoing, ServerMessage};
pub use crate::piece::{Color, Piece};
pub use crate::player::Player;
pub use crate::registry::{lobby_action, random_room_code, room_code_index, LobbyAction, Registry};
pub use crate::room::Room;
