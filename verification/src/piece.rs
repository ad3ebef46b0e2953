//! Colors and pieces.

use vstd::prelude::*;

verus! {

/// The color of a piece. `Joker` marks a wildcard and is no playable color.
#[derive(Debug, Clone, Copy, PartialEq, Eq, Structural, PartialOrd, Ord, Hash)]
pub enum Color {
    Red,
    Blue,
    Yellow,
    Black,
    Joker,
}

/// The number that a joker carries in place of a face value.
pub const JOKER_NUM: u8 = 255;

impl Color {
    /// The lower-case name under which a color is shown.
    pub open spec fn name_text(self) -> Seq<char> {
        match self {
            Color::Red => "red"@,
            Color::Blue => "blue"@,
            Color::Yellow => "yellow"@,
            Color::Black => "black"@,
            Color::Joker => "n/a"@,
        }
    }

    /// The name of this color.
    pub fn name(self) -> (r: &'static str)
        ensures
            r@ == self.name_text(),
    {
        match self {
            Color::Red => "red",
            Color::Blue => "blue",
            Color::Yellow => "yellow",
            Color::Black => "black",
            Color::Joker => "n/a",
        }
    }
}

/// One tile: a color and a face value.
#[derive(Debug, Clone, Copy, PartialEq, Eq, Structural, PartialOrd, Ord, Hash)]
pub struct Piece {
    pub color: Color,
    pub num: u8,
}

impl Piece {
    /// A piece of the given color and number.
    pub fn new(color: Color, num: u8) -> (p: Piece)
        ensures
            p == (Piece { color, num }),
    {
        Piece { color, num }
    }

    /// The wildcard piece.
    pub fn joker() -> (p: Piece)
        ensures
            p == (Piece { color: Color::Joker, num: JOKER_NUM }),
    {
        Piece::new(Color::Joker, JOKER_NUM)
    }

    /// Whether this piece is a wildcard.
    pub open spec fn is_joker(self) -> bool {
        self.color == Color::Joker
    }
}

} // verus!
