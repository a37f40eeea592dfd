//! The error kinds the core surfaces to its callers.

use vstd::prelude::*;

verus! {

/// What can go wrong when a caller hands the core a descriptor or a
/// move.
#[derive(Clone, Copy, PartialEq, Eq, Structural, Debug)]
pub enum ChessError {
    /// A malformed position descriptor or move literal.
    Parse,
    /// A move that is structurally well-formed but not legal in the
    /// current position.
    IllegalMove,
    /// An operation that needs a playable position met a terminal
    /// one.
    EndOfGame,
}

impl ChessError {
    /// A short description of the error.
    pub fn message(self) -> (r: &'static str)
        ensures
            self is Parse ==> r@ == "malformed descriptor or move"@,
            self is IllegalMove ==> r@ == "illegal move"@,
            self is EndOfGame ==> r@ == "game has ended"@,
    {
        match self {
            ChessError::Parse => "malformed descriptor or move",
            ChessError::IllegalMove => "illegal move",
            ChessError::EndOfGame => "game has ended",
        }
    }
}

} // verus!
