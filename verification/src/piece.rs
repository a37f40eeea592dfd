//! The six piece kinds, with their dense indices and descriptor
//! letters.

use vstd::prelude::*;
use crate::color::Color;

verus! {

/// Represents a piece kind, with dense indices 0..5.
#[derive(Clone, Copy, PartialEq, Eq, Structural, Debug)]
pub enum Piece {
    Pawn,
    Rook,
    Knight,
    Bishop,
    Queen,
    King,
}

impl Piece {
    /// Dense index: Pawn 0, Rook 1, Knight 2, Bishop 3, Queen 4, King 5.
    pub open spec fn spec_idx(self) -> int {
        match self {
            Piece::Pawn => 0,
            Piece::Rook => 1,
            Piece::Knight => 2,
            Piece::Bishop => 3,
            Piece::Queen => 4,
            Piece::King => 5,
        }
    }

    /// The piece of a dense index.
    pub open spec fn spec_from_idx(i: int) -> Piece {
        if i == 0 {
            Piece::Pawn
        } else if i == 1 {
            Piece::Rook
        } else if i == 2 {
            Piece::Knight
        } else if i == 3 {
            Piece::Bishop
        } else if i == 4 {
            Piece::Queen
        } else {
            Piece::King
        }
    }

    /// Use the piece as an index.
    pub fn idx(self) -> (r: usize)
        ensures
            r == self.spec_idx(),
            r < 6,
    {
        match self {
            Piece::Pawn => 0,
            Piece::Rook => 1,
            Piece::Knight => 2,
            Piece::Bishop => 3,
            Piece::Queen => 4,
            Piece::King => 5,
        }
    }

    /// The piece corresponding to a dense index below 6.
    pub fn from_idx(i: usize) -> (r: Piece)
        requires
            i < 6,
        ensures
            r == Piece::spec_from_idx(i as int),
            r.spec_idx() == i,
    {
        if i == 0 {
            Piece::Pawn
        } else if i == 1 {
            Piece::Rook
        } else if i == 2 {
            Piece::Knight
        } else if i == 3 {
            Piece::Bishop
        } else if i == 4 {
            Piece::Queen
        } else {
            Piece::King
        }
    }

    /// The descriptor letter of a piece of the given color: upper
    /// case for White, lower case for Black.
    pub open spec fn spec_as_char(self, color: Color) -> char {
        match (color, self) {
            (Color::White, Piece::Pawn) => 'P',
            (Color::White, Piece::Rook) => 'R',
            (Color::White, Piece::Knight) => 'N',
            (Color::White, Piece::Bishop) => 'B',
            (Color::White, Piece::Queen) => 'Q',
            (Color::White, Piece::King) => 'K',
            (Color::Black, Piece::Pawn) => 'p',
            (Color::Black, Piece::Rook) => 'r',
            (Color::Black, Piece::Knight) => 'n',
            (Color::Black, Piece::Bishop) => 'b',
            (Color::Black, Piece::Queen) => 'q',
            (Color::Black, Piece::King) => 'k',
        }
    }

    /// Gives the char corresponding to a piece of this color:
    /// upper case for white, lower case for black.
    #[verifier::when_used_as_spec(spec_as_char)]
    pub fn as_char(self, color: Color) -> (r: char)
        ensures
            r == self.spec_as_char(color),
    {
        match (color, self) {
            (Color::White, Piece::Pawn) => 'P',
            (Color::White, Piece::Rook) => 'R',
            (Color::White, Piece::Knight) => 'N',
            (Color::White, Piece::Bishop) => 'B',
            (Color::White, Piece::Queen) => 'Q',
            (Color::White, Piece::King) => 'K',
            (Color::Black, Piece::Pawn) => 'p',
            (Color::Black, Piece::Rook) => 'r',
            (Color::Black, Piece::Knight) => 'n',
            (Color::Black, Piece::Bishop) => 'b',
            (Color::Black, Piece::Queen) => 'q',
            (Color::Black, Piece::King) => 'k',
        }
    }

    /// The colored piece a descriptor letter stands for, if any.
    pub open spec fn spec_from_char(c: char) -> Option<(Color, Piece)> {
        if c == 'P' {
            Some((Color::White, Piece::Pawn))
        } else if c == 'R' {
            Some((Color::White, Piece::Rook))
        } else if c == 'N' {
            Some((Color::White, Piece::Knight))
        } else if c == 'B' {
            Some((Color::White, Piece::Bishop))
        } else if c == 'Q' {
            Some((Color::White, Piece::Queen))
        } else if c == 'K' {
            Some((Color::White, Piece::King))
        } else if c == 'p' {
            Some((Color::Black, Piece::Pawn))
        } else if c == 'r' {
            Some((Color::Black, Piece::Rook))
        } else if c == 'n' {
            Some((Color::Black, Piece::Knight))
        } else if c == 'b' {
            Some((Color::Black, Piece::Bishop))
        } else if c == 'q' {
            Some((Color::Black, Piece::Queen))
        } else if c == 'k' {
            Some((Color::Black, Piece::King))
        } else {
            None
        }
    }

    /// Tries to parse a piece from a single char.
    #[verifier::when_used_as_spec(spec_from_char)]
    pub fn from_char(c: char) -> (r: Option<(Color, Piece)>)
        ensures
            r == Piece::spec_from_char(c),
    {
        match c {
            'P' => Some((Color::White, Piece::Pawn)),
            'R' => Some((Color::White, Piece::Rook)),
            'N' => Some((Color::White, Piece::Knight)),
            'B' => Some((Color::White, Piece::Bishop)),
            'Q' => Some((Color::White, Piece::Queen)),
            'K' => Some((Color::White, Piece::King)),
            'p' => Some((Color::Black, Piece::Pawn)),
            'r' => Some((Color::Black, Piece::Rook)),
            'n' => Some((Color::Black, Piece::Knight)),
            'b' => Some((Color::Black, Piece::Bishop)),
            'q' => Some((Color::Black, Piece::Queen)),
            'k' => Some((Color::Black, Piece::King)),
            _ => None,
        }
    }
}

/// A piece letter names its own piece back: the two letter maps are
/// mutually inverse.
pub proof fn lemma_piece_char_round_trip(c: Color, p: Piece)
    ensures
        Piece::spec_from_char(p.spec_as_char(c)) == Some((c, p)),
{
}

} // verus!
