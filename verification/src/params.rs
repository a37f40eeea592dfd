//! Search parameters: piece values in centipawns, score bounds, and
//! the aspiration window schedule.

use vstd::prelude::*;
use crate::piece::Piece;

verus! {

/// Hard cap on the search stack depth, in plies.
pub const MAX_DEPTH: u8 = 64;

/// A score strictly above every position value; used as the open
/// window bound.
pub const SCORE_INF: i32 = 1000000;

/// The base of mate scores: the value of the king.
pub const MATE_VALUE: i32 = 100000;

/// Margin, in centipawns, for delta pruning in quiescence.
pub const DELTA: i32 = 200;

/// Default number of buckets of the transposition table; about
/// 16 MiB at 32 bytes an entry.
pub const TABLE_BUCKETS: usize = 524288;

/// The value of a piece in centipawns. The king carries the mate
/// value.
pub open spec fn spec_value_of(piece: Piece) -> int {
    match piece {
        Piece::Pawn => 100,
        Piece::Rook => 500,
        Piece::Knight => 320,
        Piece::Bishop => 330,
        Piece::Queen => 900,
        Piece::King => MATE_VALUE as int,
    }
}

/// The value of a piece in centipawns.
pub fn value_of(piece: Piece) -> (r: i32)
    ensures
        r == spec_value_of(piece),
        100 <= r <= MATE_VALUE,
{
    match piece {
        Piece::Pawn => 100,
        Piece::Rook => 500,
        Piece::Knight => 320,
        Piece::Bishop => 330,
        Piece::Queen => 900,
        Piece::King => MATE_VALUE,
    }
}

/// The widths of the aspiration window, widened on a fail-high or
/// fail-low; the last entry reopens the window fully.
pub const ASPIRATION_WINDOW: [i32; 4] = [50, 100, 400, 1000000];

} // verus!
