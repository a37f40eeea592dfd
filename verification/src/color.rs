//! The color of a player, usable as a dense 0/1 index.

use vstd::prelude::*;

verus! {

/// Represents the color of a player.
#[derive(Clone, Copy, PartialEq, Eq, Structural, Debug)]
pub enum Color {
    White,
    Black,
}

impl Color {
    /// The opposite color.
    pub open spec fn spec_invert(self) -> Color {
        match self {
            Color::White => Color::Black,
            Color::Black => Color::White,
        }
    }

    /// Dense index: White is 0, Black is 1.
    pub open spec fn spec_idx(self) -> int {
        match self {
            Color::White => 0,
            Color::Black => 1,
        }
    }

    /// Gives the opposite color of self.
    #[verifier::when_used_as_spec(spec_invert)]
    pub fn invert(self) -> (r: Color)
        ensures
            r == self.spec_invert(),
    {
        match self {
            Color::White => Color::Black,
            Color::Black => Color::White,
        }
    }

    /// Use the color as an index.
    pub fn idx(self) -> (r: usize)
        ensures
            r == self.spec_idx(),
            r < 2,
    {
        match self {
            Color::White => 0,
            Color::Black => 1,
        }
    }

    /// The side-to-move letter of the color in a position descriptor.
    pub open spec fn spec_as_char(self) -> char {
        match self {
            Color::White => 'w',
            Color::Black => 'b',
        }
    }

    /// To the descriptor's side-to-move letter.
    #[verifier::when_used_as_spec(spec_as_char)]
    pub fn as_char(self) -> (r: char)
        ensures
            r == self.spec_as_char(),
    {
        match self {
            Color::White => 'w',
            Color::Black => 'b',
        }
    }

    /// From the descriptor's side-to-move letter.
    pub fn from_char(c: char) -> (r: Option<Color>)
        ensures
            r == Some(Color::White) <==> c == 'w',
            r == Some(Color::Black) <==> c == 'b',
            r is None <==> c != 'w' && c != 'b',
    {
        match c {
            'w' => Some(Color::White),
            'b' => Some(Color::Black),
            _ => None,
        }
    }
}

impl Default for Color {
    /// Returns Color::White.
    fn default() -> (r: Self)
        ensures
            r == Color::White,
    {
        Color::White
    }
}

/// Inverting a color twice gives it back: invert is an involution.
pub proof fn lemma_invert_involution(c: Color)
    ensures
        c.spec_invert().spec_invert() == c,
{
}

} // verus!
