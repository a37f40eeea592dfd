//! Moves as a tagged union; all operations match on the tag. The
//! sentinel variant never appears in a generated move list.

use vstd::prelude::*;
use crate::color::Color;
use crate::piece::Piece;
use crate::square::Square;

verus! {

/// A convenient enum to manipulate moves. The from and to squares of
/// the castles are derived from the side to move.
#[derive(Clone, Copy, PartialEq, Eq, Structural, Debug)]
pub enum Move {
    Null,
    Quiet { from: Square, to: Square },
    Capture { from: Square, to: Square, capture: Piece },
    Promote { from: Square, to: Square, promote: Piece },
    PromoteCapture { from: Square, to: Square, capture: Piece, promote: Piece },
    EnPassant { from: Square, to: Square },
    DoublePush { from: Square, to: Square },
    KingCastle,
    QueenCastle,
}

impl Move {
    /// The square a move of the given side starts from. The sentinel
    /// has none.
    pub open spec fn spec_from(self, color: Color) -> Square {
        match self {
            Move::Quiet { from, .. } => from,
            Move::Capture { from, .. } => from,
            Move::Promote { from, .. } => from,
            Move::PromoteCapture { from, .. } => from,
            Move::EnPassant { from, .. } => from,
            Move::DoublePush { from, .. } => from,
            Move::KingCastle | Move::QueenCastle => match color {
                Color::White => Square(4),
                Color::Black => Square(60),
            },
            Move::Null => Square(64),
        }
    }

    /// The square a move of the given side lands on. The sentinel
    /// has none.
    pub open spec fn spec_to(self, color: Color) -> Square {
        match self {
            Move::Quiet { to, .. } => to,
            Move::Capture { to, .. } => to,
            Move::Promote { to, .. } => to,
            Move::PromoteCapture { to, .. } => to,
            Move::EnPassant { to, .. } => to,
            Move::DoublePush { to, .. } => to,
            Move::KingCastle => match color {
                Color::White => Square(6),
                Color::Black => Square(62),
            },
            Move::QueenCastle => match color {
                Color::White => Square(2),
                Color::Black => Square(58),
            },
            Move::Null => Square(64),
        }
    }

    /// Return the square from which the move is performed.
    #[verifier::when_used_as_spec(spec_from)]
    pub fn from(self, color: Color) -> (r: Square)
        requires
            !(self is Null),
        ensures
            r == self.spec_from(color),
    {
        match self {
            Move::Quiet { from, .. } => from,
            Move::Capture { from, .. } => from,
            Move::Promote { from, .. } => from,
            Move::PromoteCapture { from, .. } => from,
            Move::EnPassant { from, .. } => from,
            Move::DoublePush { from, .. } => from,
            Move::KingCastle | Move::QueenCastle => match color {
                Color::White => Square(4),
                Color::Black => Square(60),
            },
            Move::Null => Square(64),
        }
    }

    /// Return the square to which the move is performed.
    #[verifier::when_used_as_spec(spec_to)]
    pub fn to(self, color: Color) -> (r: Square)
        requires
            !(self is Null),
        ensures
            r == self.spec_to(color),
    {
        match self {
            Move::Quiet { to, .. } => to,
            Move::Capture { to, .. } => to,
            Move::Promote { to, .. } => to,
            Move::PromoteCapture { to, .. } => to,
            Move::EnPassant { to, .. } => to,
            Move::DoublePush { to, .. } => to,
            Move::KingCastle => match color {
                Color::White => Square(6),
                Color::Black => Square(62),
            },
            Move::QueenCastle => match color {
                Color::White => Square(2),
                Color::Black => Square(58),
            },
            Move::Null => Square(64),
        }
    }

    /// Return true if the move is none.
    pub fn is_none(&self) -> (r: bool)
        ensures
            r == (*self is Null),
    {
        match self {
            Move::Null => true,
            _ => false,
        }
    }

    /// Whether the move takes a piece, the en-passant pawn included.
    pub open spec fn spec_is_capture(self) -> bool {
        match self {
            Move::Capture { .. } | Move::PromoteCapture { .. } | Move::EnPassant { .. } => true,
            _ => false,
        }
    }

    /// Whether the move takes a piece.
    pub fn is_capture(&self) -> (r: bool)
        ensures
            r == self.spec_is_capture(),
    {
        match self {
            Move::Capture { .. } | Move::PromoteCapture { .. } | Move::EnPassant { .. } => true,
            _ => false,
        }
    }

    /// Whether the move belongs to the quiet category: no capture
    /// and no promotion.
    pub open spec fn spec_is_quiet(self) -> bool {
        match self {
            Move::Quiet { .. } | Move::DoublePush { .. } | Move::KingCastle | Move::QueenCastle
                => true,
            _ => false,
        }
    }

    /// Whether the move belongs to the quiet category.
    pub fn is_quiet(&self) -> (r: bool)
        ensures
            r == self.spec_is_quiet(),
    {
        match self {
            Move::Quiet { .. } | Move::DoublePush { .. } | Move::KingCastle | Move::QueenCastle
                => true,
            _ => false,
        }
    }

    /// The piece a capturing move takes; a pawn for en passant.
    pub open spec fn spec_get_capture(self) -> Piece {
        match self {
            Move::Capture { capture, .. } => capture,
            Move::PromoteCapture { capture, .. } => capture,
            _ => Piece::Pawn,
        }
    }

    /// The piece a capturing move takes.
    pub fn get_capture(&self) -> (r: Piece)
        requires
            self.spec_is_capture(),
        ensures
            r == self.spec_get_capture(),
    {
        match self {
            Move::Capture { capture, .. } => *capture,
            Move::PromoteCapture { capture, .. } => *capture,
            _ => Piece::Pawn,
        }
    }

    /// Whether all squares the move names lie on the board.
    pub open spec fn wf(self) -> bool {
        match self {
            Move::Quiet { from, to } => from.wf() && to.wf(),
            Move::Capture { from, to, .. } => from.wf() && to.wf(),
            Move::Promote { from, to, .. } => from.wf() && to.wf(),
            Move::PromoteCapture { from, to, .. } => from.wf() && to.wf(),
            Move::EnPassant { from, to } => from.wf() && to.wf(),
            Move::DoublePush { from, to } => from.wf() && to.wf(),
            Move::KingCastle | Move::QueenCastle => true,
            Move::Null => false,
        }
    }
}

} // verus!
