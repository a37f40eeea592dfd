//! The fixed piece-square-table evaluator, in centipawns: material
//! plus a positional bonus per square, from the side to move's
//! point of view.

use vstd::prelude::*;
use crate::attacks::Squares;
use crate::board::{lemma_word_zero_occ, occ_count, Board, Position};
use crate::color::Color;
use crate::piece::Piece;
use crate::square::Square;

verus! {

/// Positional bonus of a pawn on each square, for White.
pub open spec fn pawn_pst(s: int) -> int {
    if s == 0 {
        0
    } else if s == 1 {
        0
    } else if s == 2 {
        0
    } else if s == 3 {
        0
    } else if s == 4 {
        0
    } else if s == 5 {
        0
    } else if s == 6 {
        0
    } else if s == 7 {
        0
    } else if s == 8 {
        5
    } else if s == 9 {
        10
    } else if s == 10 {
        10
    } else if s == 11 {
        -20
    } else if s == 12 {
        -20
    } else if s == 13 {
        10
    } else if s == 14 {
        10
    } else if s == 15 {
        5
    } else if s == 16 {
        5
    } else if s == 17 {
        -5
    } else if s == 18 {
        -10
    } else if s == 19 {
        0
    } else if s == 20 {
        0
    } else if s == 21 {
        -10
    } else if s == 22 {
        -5
    } else if s == 23 {
        5
    } else if s == 24 {
        0
    } else if s == 25 {
        0
    } else if s == 26 {
        0
    } else if s == 27 {
        20
    } else if s == 28 {
        20
    } else if s == 29 {
        0
    } else if s == 30 {
        0
    } else if s == 31 {
        0
    } else if s == 32 {
        5
    } else if s == 33 {
        5
    } else if s == 34 {
        10
    } else if s == 35 {
        25
    } else if s == 36 {
        25
    } else if s == 37 {
        10
    } else if s == 38 {
        5
    } else if s == 39 {
        5
    } else if s == 40 {
        10
    } else if s == 41 {
        10
    } else if s == 42 {
        20
    } else if s == 43 {
        30
    } else if s == 44 {
        30
    } else if s == 45 {
        20
    } else if s == 46 {
        10
    } else if s == 47 {
        10
    } else if s == 48 {
        50
    } else if s == 49 {
        50
    } else if s == 50 {
        50
    } else if s == 51 {
        50
    } else if s == 52 {
        50
    } else if s == 53 {
        50
    } else if s == 54 {
        50
    } else if s == 55 {
        50
    } else if s == 56 {
        0
    } else if s == 57 {
        0
    } else if s == 58 {
        0
    } else if s == 59 {
        0
    } else if s == 60 {
        0
    } else if s == 61 {
        0
    } else if s == 62 {
        0
    } else {
        0
    }
}

/// Positional bonus of a rook on each square, for White.
pub open spec fn rook_pst(s: int) -> int {
    if s == 0 {
        0
    } else if s == 1 {
        0
    } else if s == 2 {
        0
    } else if s == 3 {
        5
    } else if s == 4 {
        5
    } else if s == 5 {
        0
    } else if s == 6 {
        0
    } else if s == 7 {
        0
    } else if s == 8 {
        -5
    } else if s == 9 {
        0
    } else if s == 10 {
        0
    } else if s == 11 {
        0
    } else if s == 12 {
        0
    } else if s == 13 {
        0
    } else if s == 14 {
        0
    } else if s == 15 {
        -5
    } else if s == 16 {
        -5
    } else if s == 17 {
        0
    } else if s == 18 {
        0
    } else if s == 19 {
        0
    } else if s == 20 {
        0
    } else if s == 21 {
        0
    } else if s == 22 {
        0
    } else if s == 23 {
        -5
    } else if s == 24 {
        -5
    } else if s == 25 {
        0
    } else if s == 26 {
        0
    } else if s == 27 {
        0
    } else if s == 28 {
        0
    } else if s == 29 {
        0
    } else if s == 30 {
        0
    } else if s == 31 {
        -5
    } else if s == 32 {
        -5
    } else if s == 33 {
        0
    } else if s == 34 {
        0
    } else if s == 35 {
        0
    } else if s == 36 {
        0
    } else if s == 37 {
        0
    } else if s == 38 {
        0
    } else if s == 39 {
        -5
    } else if s == 40 {
        -5
    } else if s == 41 {
        0
    } else if s == 42 {
        0
    } else if s == 43 {
        0
    } else if s == 44 {
        0
    } else if s == 45 {
        0
    } else if s == 46 {
        0
    } else if s == 47 {
        -5
    } else if s == 48 {
        5
    } else if s == 49 {
        10
    } else if s == 50 {
        10
    } else if s == 51 {
        10
    } else if s == 52 {
        10
    } else if s == 53 {
        10
    } else if s == 54 {
        10
    } else if s == 55 {
        5
    } else if s == 56 {
        0
    } else if s == 57 {
        0
    } else if s == 58 {
        0
    } else if s == 59 {
        0
    } else if s == 60 {
        0
    } else if s == 61 {
        0
    } else if s == 62 {
        0
    } else {
        0
    }
}

/// Positional bonus of a knight on each square, for White.
pub open spec fn knight_pst(s: int) -> int {
    if s == 0 {
        -50
    } else if s == 1 {
        -40
    } else if s == 2 {
        -30
    } else if s == 3 {
        -30
    } else if s == 4 {
        -30
    } else if s == 5 {
        -30
    } else if s == 6 {
        -40
    } else if s == 7 {
        -50
    } else if s == 8 {
        -40
    } else if s == 9 {
        -20
    } else if s == 10 {
        0
    } else if s == 11 {
        5
    } else if s == 12 {
        5
    } else if s == 13 {
        0
    } else if s == 14 {
        -20
    } else if s == 15 {
        -40
    } else if s == 16 {
        -30
    } else if s == 17 {
        5
    } else if s == 18 {
        10
    } else if s == 19 {
        15
    } else if s == 20 {
        15
    } else if s == 21 {
        10
    } else if s == 22 {
        5
    } else if s == 23 {
        -30
    } else if s == 24 {
        -30
    } else if s == 25 {
        0
    } else if s == 26 {
        15
    } else if s == 27 {
        20
    } else if s == 28 {
        20
    } else if s == 29 {
        15
    } else if s == 30 {
        0
    } else if s == 31 {
        -30
    } else if s == 32 {
        -30
    } else if s == 33 {
        5
    } else if s == 34 {
        15
    } else if s == 35 {
        20
    } else if s == 36 {
        20
    } else if s == 37 {
        15
    } else if s == 38 {
        5
    } else if s == 39 {
        -30
    } else if s == 40 {
        -30
    } else if s == 41 {
        0
    } else if s == 42 {
        10
    } else if s == 43 {
        15
    } else if s == 44 {
        15
    } else if s == 45 {
        10
    } else if s == 46 {
        0
    } else if s == 47 {
        -30
    } else if s == 48 {
        -40
    } else if s == 49 {
        -20
    } else if s == 50 {
        0
    } else if s == 51 {
        0
    } else if s == 52 {
        0
    } else if s == 53 {
        0
    } else if s == 54 {
        -20
    } else if s == 55 {
        -40
    } else if s == 56 {
        -50
    } else if s == 57 {
        -40
    } else if s == 58 {
        -30
    } else if s == 59 {
        -30
    } else if s == 60 {
        -30
    } else if s == 61 {
        -30
    } else if s == 62 {
        -40
    } else {
        -50
    }
}

/// Positional bonus of a bishop on each square, for White.
pub open spec fn bishop_pst(s: int) -> int {
    if s == 0 {
        -20
    } else if s == 1 {
        -10
    } else if s == 2 {
        -10
    } else if s == 3 {
        -10
    } else if s == 4 {
        -10
    } else if s == 5 {
        -10
    } else if s == 6 {
        -10
    } else if s == 7 {
        -20
    } else if s == 8 {
        -10
    } else if s == 9 {
        5
    } else if s == 10 {
        0
    } else if s == 11 {
        0
    } else if s == 12 {
        0
    } else if s == 13 {
        0
    } else if s == 14 {
        5
    } else if s == 15 {
        -10
    } else if s == 16 {
        -10
    } else if s == 17 {
        10
    } else if s == 18 {
        10
    } else if s == 19 {
        10
    } else if s == 20 {
        10
    } else if s == 21 {
        10
    } else if s == 22 {
        10
    } else if s == 23 {
        -10
    } else if s == 24 {
        -10
    } else if s == 25 {
        0
    } else if s == 26 {
        10
    } else if s == 27 {
        10
    } else if s == 28 {
        10
    } else if s == 29 {
        10
    } else if s == 30 {
        0
    } else if s == 31 {
        -10
    } else if s == 32 {
        -10
    } else if s == 33 {
        5
    } else if s == 34 {
        5
    } else if s == 35 {
        10
    } else if s == 36 {
        10
    } else if s == 37 {
        5
    } else if s == 38 {
        5
    } else if s == 39 {
        -10
    } else if s == 40 {
        -10
    } else if s == 41 {
        0
    } else if s == 42 {
        5
    } else if s == 43 {
        10
    } else if s == 44 {
        10
    } else if s == 45 {
        5
    } else if s == 46 {
        0
    } else if s == 47 {
        -10
    } else if s == 48 {
        -10
    } else if s == 49 {
        0
    } else if s == 50 {
        0
    } else if s == 51 {
        0
    } else if s == 52 {
        0
    } else if s == 53 {
        0
    } else if s == 54 {
        0
    } else if s == 55 {
        -10
    } else if s == 56 {
        -20
    } else if s == 57 {
        -10
    } else if s == 58 {
        -10
    } else if s == 59 {
        -10
    } else if s == 60 {
        -10
    } else if s == 61 {
        -10
    } else if s == 62 {
        -10
    } else {
        -20
    }
}

/// Positional bonus of a queen on each square, for White.
pub open spec fn queen_pst(s: int) -> int {
    if s == 0 {
        -20
    } else if s == 1 {
        -10
    } else if s == 2 {
        -10
    } else if s == 3 {
        -5
    } else if s == 4 {
        -5
    } else if s == 5 {
        -10
    } else if s == 6 {
        -10
    } else if s == 7 {
        -20
    } else if s == 8 {
        -10
    } else if s == 9 {
        0
    } else if s == 10 {
        5
    } else if s == 11 {
        0
    } else if s == 12 {
        0
    } else if s == 13 {
        0
    } else if s == 14 {
        0
    } else if s == 15 {
        -10
    } else if s == 16 {
        -10
    } else if s == 17 {
        5
    } else if s == 18 {
        5
    } else if s == 19 {
        5
    } else if s == 20 {
        5
    } else if s == 21 {
        5
    } else if s == 22 {
        0
    } else if s == 23 {
        -10
    } else if s == 24 {
        0
    } else if s == 25 {
        0
    } else if s == 26 {
        5
    } else if s == 27 {
        5
    } else if s == 28 {
        5
    } else if s == 29 {
        5
    } else if s == 30 {
        0
    } else if s == 31 {
        -5
    } else if s == 32 {
        -5
    } else if s == 33 {
        0
    } else if s == 34 {
        5
    } else if s == 35 {
        5
    } else if s == 36 {
        5
    } else if s == 37 {
        5
    } else if s == 38 {
        0
    } else if s == 39 {
        -5
    } else if s == 40 {
        -10
    } else if s == 41 {
        0
    } else if s == 42 {
        5
    } else if s == 43 {
        5
    } else if s == 44 {
        5
    } else if s == 45 {
        5
    } else if s == 46 {
        0
    } else if s == 47 {
        -10
    } else if s == 48 {
        -10
    } else if s == 49 {
        0
    } else if s == 50 {
        0
    } else if s == 51 {
        0
    } else if s == 52 {
        0
    } else if s == 53 {
        0
    } else if s == 54 {
        0
    } else if s == 55 {
        -10
    } else if s == 56 {
        -20
    } else if s == 57 {
        -10
    } else if s == 58 {
        -10
    } else if s == 59 {
        -5
    } else if s == 60 {
        -5
    } else if s == 61 {
        -10
    } else if s == 62 {
        -10
    } else {
        -20
    }
}

/// Positional bonus of a king before the endgame on each square, for White.
pub open spec fn king_early_pst(s: int) -> int {
    if s == 0 {
        20
    } else if s == 1 {
        30
    } else if s == 2 {
        10
    } else if s == 3 {
        0
    } else if s == 4 {
        0
    } else if s == 5 {
        10
    } else if s == 6 {
        30
    } else if s == 7 {
        20
    } else if s == 8 {
        20
    } else if s == 9 {
        20
    } else if s == 10 {
        0
    } else if s == 11 {
        0
    } else if s == 12 {
        0
    } else if s == 13 {
        0
    } else if s == 14 {
        20
    } else if s == 15 {
        20
    } else if s == 16 {
        -10
    } else if s == 17 {
        -20
    } else if s == 18 {
        -20
    } else if s == 19 {
        -20
    } else if s == 20 {
        -20
    } else if s == 21 {
        -20
    } else if s == 22 {
        -20
    } else if s == 23 {
        -10
    } else if s == 24 {
        -20
    } else if s == 25 {
        -30
    } else if s == 26 {
        -30
    } else if s == 27 {
        -40
    } else if s == 28 {
        -40
    } else if s == 29 {
        -30
    } else if s == 30 {
        -30
    } else if s == 31 {
        -20
    } else if s == 32 {
        -30
    } else if s == 33 {
        -40
    } else if s == 34 {
        -40
    } else if s == 35 {
        -50
    } else if s == 36 {
        -50
    } else if s == 37 {
        -40
    } else if s == 38 {
        -40
    } else if s == 39 {
        -30
    } else if s == 40 {
        -30
    } else if s == 41 {
        -40
    } else if s == 42 {
        -40
    } else if s == 43 {
        -50
    } else if s == 44 {
        -50
    } else if s == 45 {
        -40
    } else if s == 46 {
        -40
    } else if s == 47 {
        -30
    } else if s == 48 {
        -30
    } else if s == 49 {
        -40
    } else if s == 50 {
        -40
    } else if s == 51 {
        -50
    } else if s == 52 {
        -50
    } else if s == 53 {
        -40
    } else if s == 54 {
        -40
    } else if s == 55 {
        -30
    } else if s == 56 {
        -30
    } else if s == 57 {
        -40
    } else if s == 58 {
        -40
    } else if s == 59 {
        -50
    } else if s == 60 {
        -50
    } else if s == 61 {
        -40
    } else if s == 62 {
        -40
    } else {
        -30
    }
}

/// Positional bonus of a king in the endgame on each square, for White.
pub open spec fn king_end_pst(s: int) -> int {
    if s == 0 {
        -50
    } else if s == 1 {
        -30
    } else if s == 2 {
        -30
    } else if s == 3 {
        -30
    } else if s == 4 {
        -30
    } else if s == 5 {
        -30
    } else if s == 6 {
        -30
    } else if s == 7 {
        -50
    } else if s == 8 {
        -30
    } else if s == 9 {
        -30
    } else if s == 10 {
        0
    } else if s == 11 {
        0
    } else if s == 12 {
        0
    } else if s == 13 {
        0
    } else if s == 14 {
        -30
    } else if s == 15 {
        -30
    } else if s == 16 {
        -30
    } else if s == 17 {
        -10
    } else if s == 18 {
        20
    } else if s == 19 {
        30
    } else if s == 20 {
        30
    } else if s == 21 {
        20
    } else if s == 22 {
        -10
    } else if s == 23 {
        -30
    } else if s == 24 {
        -30
    } else if s == 25 {
        -10
    } else if s == 26 {
        30
    } else if s == 27 {
        40
    } else if s == 28 {
        40
    } else if s == 29 {
        30
    } else if s == 30 {
        -10
    } else if s == 31 {
        -30
    } else if s == 32 {
        -30
    } else if s == 33 {
        -10
    } else if s == 34 {
        30
    } else if s == 35 {
        40
    } else if s == 36 {
        40
    } else if s == 37 {
        30
    } else if s == 38 {
        -10
    } else if s == 39 {
        -30
    } else if s == 40 {
        -30
    } else if s == 41 {
        -10
    } else if s == 42 {
        20
    } else if s == 43 {
        30
    } else if s == 44 {
        30
    } else if s == 45 {
        20
    } else if s == 46 {
        -10
    } else if s == 47 {
        -30
    } else if s == 48 {
        -30
    } else if s == 49 {
        -20
    } else if s == 50 {
        -10
    } else if s == 51 {
        0
    } else if s == 52 {
        0
    } else if s == 53 {
        -10
    } else if s == 54 {
        -20
    } else if s == 55 {
        -30
    } else if s == 56 {
        -50
    } else if s == 57 {
        -40
    } else if s == 58 {
        -30
    } else if s == 59 {
        -20
    } else if s == 60 {
        -20
    } else if s == 61 {
        -30
    } else if s == 62 {
        -40
    } else {
        -50
    }
}

/// Looks up the pawn table.
fn pawn_pst_x(s: u8) -> (r: i32)
    requires
        s < 64,
    ensures
        r == pawn_pst(s as int),
{
    if s == 0 {
        0
    } else if s == 1 {
        0
    } else if s == 2 {
        0
    } else if s == 3 {
        0
    } else if s == 4 {
        0
    } else if s == 5 {
        0
    } else if s == 6 {
        0
    } else if s == 7 {
        0
    } else if s == 8 {
        5
    } else if s == 9 {
        10
    } else if s == 10 {
        10
    } else if s == 11 {
        -20
    } else if s == 12 {
        -20
    } else if s == 13 {
        10
    } else if s == 14 {
        10
    } else if s == 15 {
        5
    } else if s == 16 {
        5
    } else if s == 17 {
        -5
    } else if s == 18 {
        -10
    } else if s == 19 {
        0
    } else if s == 20 {
        0
    } else if s == 21 {
        -10
    } else if s == 22 {
        -5
    } else if s == 23 {
        5
    } else if s == 24 {
        0
    } else if s == 25 {
        0
    } else if s == 26 {
        0
    } else if s == 27 {
        20
    } else if s == 28 {
        20
    } else if s == 29 {
        0
    } else if s == 30 {
        0
    } else if s == 31 {
        0
    } else if s == 32 {
        5
    } else if s == 33 {
        5
    } else if s == 34 {
        10
    } else if s == 35 {
        25
    } else if s == 36 {
        25
    } else if s == 37 {
        10
    } else if s == 38 {
        5
    } else if s == 39 {
        5
    } else if s == 40 {
        10
    } else if s == 41 {
        10
    } else if s == 42 {
        20
    } else if s == 43 {
        30
    } else if s == 44 {
        30
    } else if s == 45 {
        20
    } else if s == 46 {
        10
    } else if s == 47 {
        10
    } else if s == 48 {
        50
    } else if s == 49 {
        50
    } else if s == 50 {
        50
    } else if s == 51 {
        50
    } else if s == 52 {
        50
    } else if s == 53 {
        50
    } else if s == 54 {
        50
    } else if s == 55 {
        50
    } else if s == 56 {
        0
    } else if s == 57 {
        0
    } else if s == 58 {
        0
    } else if s == 59 {
        0
    } else if s == 60 {
        0
    } else if s == 61 {
        0
    } else if s == 62 {
        0
    } else {
        0
    }
}

/// Looks up the rook table.
fn rook_pst_x(s: u8) -> (r: i32)
    requires
        s < 64,
    ensures
        r == rook_pst(s as int),
{
    if s == 0 {
        0
    } else if s == 1 {
        0
    } else if s == 2 {
        0
    } else if s == 3 {
        5
    } else if s == 4 {
        5
    } else if s == 5 {
        0
    } else if s == 6 {
        0
    } else if s == 7 {
        0
    } else if s == 8 {
        -5
    } else if s == 9 {
        0
    } else if s == 10 {
        0
    } else if s == 11 {
        0
    } else if s == 12 {
        0
    } else if s == 13 {
        0
    } else if s == 14 {
        0
    } else if s == 15 {
        -5
    } else if s == 16 {
        -5
    } else if s == 17 {
        0
    } else if s == 18 {
        0
    } else if s == 19 {
        0
    } else if s == 20 {
        0
    } else if s == 21 {
        0
    } else if s == 22 {
        0
    } else if s == 23 {
        -5
    } else if s == 24 {
        -5
    } else if s == 25 {
        0
    } else if s == 26 {
        0
    } else if s == 27 {
        0
    } else if s == 28 {
        0
    } else if s == 29 {
        0
    } else if s == 30 {
        0
    } else if s == 31 {
        -5
    } else if s == 32 {
        -5
    } else if s == 33 {
        0
    } else if s == 34 {
        0
    } else if s == 35 {
        0
    } else if s == 36 {
        0
    } else if s == 37 {
        0
    } else if s == 38 {
        0
    } else if s == 39 {
        -5
    } else if s == 40 {
        -5
    } else if s == 41 {
        0
    } else if s == 42 {
        0
    } else if s == 43 {
        0
    } else if s == 44 {
        0
    } else if s == 45 {
        0
    } else if s == 46 {
        0
    } else if s == 47 {
        -5
    } else if s == 48 {
        5
    } else if s == 49 {
        10
    } else if s == 50 {
        10
    } else if s == 51 {
        10
    } else if s == 52 {
        10
    } else if s == 53 {
        10
    } else if s == 54 {
        10
    } else if s == 55 {
        5
    } else if s == 56 {
        0
    } else if s == 57 {
        0
    } else if s == 58 {
        0
    } else if s == 59 {
        0
    } else if s == 60 {
        0
    } else if s == 61 {
        0
    } else if s == 62 {
        0
    } else {
        0
    }
}

/// Looks up the knight table.
fn knight_pst_x(s: u8) -> (r: i32)
    requires
        s < 64,
    ensures
        r == knight_pst(s as int),
{
    if s == 0 {
        -50
    } else if s == 1 {
        -40
    } else if s == 2 {
        -30
    } else if s == 3 {
        -30
    } else if s == 4 {
        -30
    } else if s == 5 {
        -30
    } else if s == 6 {
        -40
    } else if s == 7 {
        -50
    } else if s == 8 {
        -40
    } else if s == 9 {
        -20
    } else if s == 10 {
        0
    } else if s == 11 {
        5
    } else if s == 12 {
        5
    } else if s == 13 {
        0
    } else if s == 14 {
        -20
    } else if s == 15 {
        -40
    } else if s == 16 {
        -30
    } else if s == 17 {
        5
    } else if s == 18 {
        10
    } else if s == 19 {
        15
    } else if s == 20 {
        15
    } else if s == 21 {
        10
    } else if s == 22 {
        5
    } else if s == 23 {
        -30
    } else if s == 24 {
        -30
    } else if s == 25 {
        0
    } else if s == 26 {
        15
    } else if s == 27 {
        20
    } else if s == 28 {
        20
    } else if s == 29 {
        15
    } else if s == 30 {
        0
    } else if s == 31 {
        -30
    } else if s == 32 {
        -30
    } else if s == 33 {
        5
    } else if s == 34 {
        15
    } else if s == 35 {
        20
    } else if s == 36 {
        20
    } else if s == 37 {
        15
    } else if s == 38 {
        5
    } else if s == 39 {
        -30
    } else if s == 40 {
        -30
    } else if s == 41 {
        0
    } else if s == 42 {
        10
    } else if s == 43 {
        15
    } else if s == 44 {
        15
    } else if s == 45 {
        10
    } else if s == 46 {
        0
    } else if s == 47 {
        -30
    } else if s == 48 {
        -40
    } else if s == 49 {
        -20
    } else if s == 50 {
        0
    } else if s == 51 {
        0
    } else if s == 52 {
        0
    } else if s == 53 {
        0
    } else if s == 54 {
        -20
    } else if s == 55 {
        -40
    } else if s == 56 {
        -50
    } else if s == 57 {
        -40
    } else if s == 58 {
        -30
    } else if s == 59 {
        -30
    } else if s == 60 {
        -30
    } else if s == 61 {
        -30
    } else if s == 62 {
        -40
    } else {
        -50
    }
}

/// Looks up the bishop table.
fn bishop_pst_x(s: u8) -> (r: i32)
    requires
        s < 64,
    ensures
        r == bishop_pst(s as int),
{
    if s == 0 {
        -20
    } else if s == 1 {
        -10
    } else if s == 2 {
        -10
    } else if s == 3 {
        -10
    } else if s == 4 {
        -10
    } else if s == 5 {
        -10
    } else if s == 6 {
        -10
    } else if s == 7 {
        -20
    } else if s == 8 {
        -10
    } else if s == 9 {
        5
    } else if s == 10 {
        0
    } else if s == 11 {
        0
    } else if s == 12 {
        0
    } else if s == 13 {
        0
    } else if s == 14 {
        5
    } else if s == 15 {
        -10
    } else if s == 16 {
        -10
    } else if s == 17 {
        10
    } else if s == 18 {
        10
    } else if s == 19 {
        10
    } else if s == 20 {
        10
    } else if s == 21 {
        10
    } else if s == 22 {
        10
    } else if s == 23 {
        -10
    } else if s == 24 {
        -10
    } else if s == 25 {
        0
    } else if s == 26 {
        10
    } else if s == 27 {
        10
    } else if s == 28 {
        10
    } else if s == 29 {
        10
    } else if s == 30 {
        0
    } else if s == 31 {
        -10
    } else if s == 32 {
        -10
    } else if s == 33 {
        5
    } else if s == 34 {
        5
    } else if s == 35 {
        10
    } else if s == 36 {
        10
    } else if s == 37 {
        5
    } else if s == 38 {
        5
    } else if s == 39 {
        -10
    } else if s == 40 {
        -10
    } else if s == 41 {
        0
    } else if s == 42 {
        5
    } else if s == 43 {
        10
    } else if s == 44 {
        10
    } else if s == 45 {
        5
    } else if s == 46 {
        0
    } else if s == 47 {
        -10
    } else if s == 48 {
        -10
    } else if s == 49 {
        0
    } else if s == 50 {
        0
    } else if s == 51 {
        0
    } else if s == 52 {
        0
    } else if s == 53 {
        0
    } else if s == 54 {
        0
    } else if s == 55 {
        -10
    } else if s == 56 {
        -20
    } else if s == 57 {
        -10
    } else if s == 58 {
        -10
    } else if s == 59 {
        -10
    } else if s == 60 {
        -10
    } else if s == 61 {
        -10
    } else if s == 62 {
        -10
    } else {
        -20
    }
}

/// Looks up the queen table.
fn queen_pst_x(s: u8) -> (r: i32)
    requires
        s < 64,
    ensures
        r == queen_pst(s as int),
{
    if s == 0 {
        -20
    } else if s == 1 {
        -10
    } else if s == 2 {
        -10
    } else if s == 3 {
        -5
    } else if s == 4 {
        -5
    } else if s == 5 {
        -10
    } else if s == 6 {
        -10
    } else if s == 7 {
        -20
    } else if s == 8 {
        -10
    } else if s == 9 {
        0
    } else if s == 10 {
        5
    } else if s == 11 {
        0
    } else if s == 12 {
        0
    } else if s == 13 {
        0
    } else if s == 14 {
        0
    } else if s == 15 {
        -10
    } else if s == 16 {
        -10
    } else if s == 17 {
        5
    } else if s == 18 {
        5
    } else if s == 19 {
        5
    } else if s == 20 {
        5
    } else if s == 21 {
        5
    } else if s == 22 {
        0
    } else if s == 23 {
        -10
    } else if s == 24 {
        0
    } else if s == 25 {
        0
    } else if s == 26 {
        5
    } else if s == 27 {
        5
    } else if s == 28 {
        5
    } else if s == 29 {
        5
    } else if s == 30 {
        0
    } else if s == 31 {
        -5
    } else if s == 32 {
        -5
    } else if s == 33 {
        0
    } else if s == 34 {
        5
    } else if s == 35 {
        5
    } else if s == 36 {
        5
    } else if s == 37 {
        5
    } else if s == 38 {
        0
    } else if s == 39 {
        -5
    } else if s == 40 {
        -10
    } else if s == 41 {
        0
    } else if s == 42 {
        5
    } else if s == 43 {
        5
    } else if s == 44 {
        5
    } else if s == 45 {
        5
    } else if s == 46 {
        0
    } else if s == 47 {
        -10
    } else if s == 48 {
        -10
    } else if s == 49 {
        0
    } else if s == 50 {
        0
    } else if s == 51 {
        0
    } else if s == 52 {
        0
    } else if s == 53 {
        0
    } else if s == 54 {
        0
    } else if s == 55 {
        -10
    } else if s == 56 {
        -20
    } else if s == 57 {
        -10
    } else if s == 58 {
        -10
    } else if s == 59 {
        -5
    } else if s == 60 {
        -5
    } else if s == 61 {
        -10
    } else if s == 62 {
        -10
    } else {
        -20
    }
}

/// Looks up the king early table.
fn king_early_pst_x(s: u8) -> (r: i32)
    requires
        s < 64,
    ensures
        r == king_early_pst(s as int),
{
    if s == 0 {
        20
    } else if s == 1 {
        30
    } else if s == 2 {
        10
    } else if s == 3 {
        0
    } else if s == 4 {
        0
    } else if s == 5 {
        10
    } else if s == 6 {
        30
    } else if s == 7 {
        20
    } else if s == 8 {
        20
    } else if s == 9 {
        20
    } else if s == 10 {
        0
    } else if s == 11 {
        0
    } else if s == 12 {
        0
    } else if s == 13 {
        0
    } else if s == 14 {
        20
    } else if s == 15 {
        20
    } else if s == 16 {
        -10
    } else if s == 17 {
        -20
    } else if s == 18 {
        -20
    } else if s == 19 {
        -20
    } else if s == 20 {
        -20
    } else if s == 21 {
        -20
    } else if s == 22 {
        -20
    } else if s == 23 {
        -10
    } else if s == 24 {
        -20
    } else if s == 25 {
        -30
    } else if s == 26 {
        -30
    } else if s == 27 {
        -40
    } else if s == 28 {
        -40
    } else if s == 29 {
        -30
    } else if s == 30 {
        -30
    } else if s == 31 {
        -20
    } else if s == 32 {
        -30
    } else if s == 33 {
        -40
    } else if s == 34 {
        -40
    } else if s == 35 {
        -50
    } else if s == 36 {
        -50
    } else if s == 37 {
        -40
    } else if s == 38 {
        -40
    } else if s == 39 {
        -30
    } else if s == 40 {
        -30
    } else if s == 41 {
        -40
    } else if s == 42 {
        -40
    } else if s == 43 {
        -50
    } else if s == 44 {
        -50
    } else if s == 45 {
        -40
    } else if s == 46 {
        -40
    } else if s == 47 {
        -30
    } else if s == 48 {
        -30
    } else if s == 49 {
        -40
    } else if s == 50 {
        -40
    } else if s == 51 {
        -50
    } else if s == 52 {
        -50
    } else if s == 53 {
        -40
    } else if s == 54 {
        -40
    } else if s == 55 {
        -30
    } else if s == 56 {
        -30
    } else if s == 57 {
        -40
    } else if s == 58 {
        -40
    } else if s == 59 {
        -50
    } else if s == 60 {
        -50
    } else if s == 61 {
        -40
    } else if s == 62 {
        -40
    } else {
        -30
    }
}

/// Looks up the king end table.
fn king_end_pst_x(s: u8) -> (r: i32)
    requires
        s < 64,
    ensures
        r == king_end_pst(s as int),
{
    if s == 0 {
        -50
    } else if s == 1 {
        -30
    } else if s == 2 {
        -30
    } else if s == 3 {
        -30
    } else if s == 4 {
        -30
    } else if s == 5 {
        -30
    } else if s == 6 {
        -30
    } else if s == 7 {
        -50
    } else if s == 8 {
        -30
    } else if s == 9 {
        -30
    } else if s == 10 {
        0
    } else if s == 11 {
        0
    } else if s == 12 {
        0
    } else if s == 13 {
        0
    } else if s == 14 {
        -30
    } else if s == 15 {
        -30
    } else if s == 16 {
        -30
    } else if s == 17 {
        -10
    } else if s == 18 {
        20
    } else if s == 19 {
        30
    } else if s == 20 {
        30
    } else if s == 21 {
        20
    } else if s == 22 {
        -10
    } else if s == 23 {
        -30
    } else if s == 24 {
        -30
    } else if s == 25 {
        -10
    } else if s == 26 {
        30
    } else if s == 27 {
        40
    } else if s == 28 {
        40
    } else if s == 29 {
        30
    } else if s == 30 {
        -10
    } else if s == 31 {
        -30
    } else if s == 32 {
        -30
    } else if s == 33 {
        -10
    } else if s == 34 {
        30
    } else if s == 35 {
        40
    } else if s == 36 {
        40
    } else if s == 37 {
        30
    } else if s == 38 {
        -10
    } else if s == 39 {
        -30
    } else if s == 40 {
        -30
    } else if s == 41 {
        -10
    } else if s == 42 {
        20
    } else if s == 43 {
        30
    } else if s == 44 {
        30
    } else if s == 45 {
        20
    } else if s == 46 {
        -10
    } else if s == 47 {
        -30
    } else if s == 48 {
        -30
    } else if s == 49 {
        -20
    } else if s == 50 {
        -10
    } else if s == 51 {
        0
    } else if s == 52 {
        0
    } else if s == 53 {
        -10
    } else if s == 54 {
        -20
    } else if s == 55 {
        -30
    } else if s == 56 {
        -50
    } else if s == 57 {
        -40
    } else if s == 58 {
        -30
    } else if s == 59 {
        -20
    } else if s == 60 {
        -20
    } else if s == 61 {
        -30
    } else if s == 62 {
        -40
    } else {
        -50
    }
}

/// The material value of a piece for evaluation; the king carries
/// none, its loss ends the game instead.
pub open spec fn spec_base(p: Piece) -> int {
    match p {
        Piece::Pawn => 100,
        Piece::Rook => 500,
        Piece::Knight => 320,
        Piece::Bishop => 330,
        Piece::Queen => 900,
        Piece::King => 0,
    }
}

/// The square-table bonus of a piece kind on a square.
pub open spec fn spec_pst(p: Piece, endgame: bool, s: int) -> int {
    match p {
        Piece::Pawn => pawn_pst(s),
        Piece::Rook => rook_pst(s),
        Piece::Knight => knight_pst(s),
        Piece::Bishop => bishop_pst(s),
        Piece::Queen => queen_pst(s),
        Piece::King => if endgame {
            king_end_pst(s)
        } else {
            king_early_pst(s)
        },
    }
}

/// The signed contribution of one square: White adds, Black
/// subtracts with its square mirrored.
pub open spec fn spec_sq_score(sqv: Squares, endgame: bool, s: int) -> int {
    match sqv[s] {
        Some((Color::White, pc)) => spec_base(pc) + spec_pst(pc, endgame, s),
        Some((Color::Black, pc)) => -(spec_base(pc) + spec_pst(pc, endgame, 63 - s)),
        None => 0,
    }
}

/// The summed contributions of the squares below `n`.
pub open spec fn spec_eval_below(sqv: Squares, endgame: bool, n: int) -> int
    decreases n,
{
    if n <= 0 {
        0
    } else {
        spec_eval_below(sqv, endgame, n - 1) + spec_sq_score(sqv, endgame, n - 1)
    }
}

/// The board is in the endgame once both queens have left it.
pub open spec fn spec_is_endgame(sqv: Squares) -> bool {
    occ_count(sqv, Color::White, Piece::Queen, 64) == 0 && occ_count(
        sqv,
        Color::Black,
        Piece::Queen,
        64,
    ) == 0
}

/// The static evaluation of a position, from the side to move's
/// point of view.
pub open spec fn spec_eval(p: Position) -> int {
    let e = spec_eval_below(p.squares, spec_is_endgame(p.squares), 64);
    match p.side {
        Color::White => e,
        Color::Black => -e,
    }
}

/// Every single-square contribution is small.
proof fn lemma_sq_score_bound(sqv: Squares, endgame: bool, s: int)
    ensures
        -1000 <= spec_sq_score(sqv, endgame, s) <= 1000,
{
}

/// Looks up the square-table bonus of a piece on a square.
fn pst_lookup(p: Piece, endgame: bool, s: u8) -> (r: i32)
    requires
        s < 64,
    ensures
        r == spec_pst(p, endgame, s as int),
{
    match (p, endgame) {
        (Piece::Pawn, _) => pawn_pst_x(s),
        (Piece::Rook, _) => rook_pst_x(s),
        (Piece::Knight, _) => knight_pst_x(s),
        (Piece::Bishop, _) => bishop_pst_x(s),
        (Piece::Queen, _) => queen_pst_x(s),
        (Piece::King, true) => king_end_pst_x(s),
        (Piece::King, false) => king_early_pst_x(s),
    }
}

impl Board {
    /// Whether both queens have left the board.
    pub fn is_endgame(&self) -> (r: bool)
        requires
            self.boards_ok(),
        ensures
            r == spec_is_endgame(self@.squares),
    {
        proof {
            lemma_word_zero_occ(*self, Color::White, Piece::Queen);
            lemma_word_zero_occ(*self, Color::Black, Piece::Queen);
        }
        let wq: u64 = self.bb[4];
        let bq: u64 = self.bb[10];
        proof {
            assert(self.bb@[Color::White.spec_idx() * 6 + Piece::Queen.spec_idx()] == self.bb@[4]);
            assert(self.bb@[Color::Black.spec_idx() * 6 + Piece::Queen.spec_idx()] == self.bb@[10]);
        }
        wq == 0 && bq == 0
    }
}

/// Evaluates the board: material plus piece-square bonus for each
/// side, negated for Black to move.
pub fn eval(board: &Board) -> (r: i32)
    requires
        board.boards_ok(),
    ensures
        r == spec_eval(board@),
        -64000 <= r <= 64000,
{
    let ghost sqv = board@.squares;
    let endgame = board.is_endgame();
    let mut acc: i32 = 0;
    let mut s: u8 = 0;
    while s < 64
        invariant
            board.boards_ok(),
            sqv == board@.squares,
            endgame == spec_is_endgame(sqv),
            s <= 64,
            acc == spec_eval_below(sqv, endgame, s as int),
            -1000 * (s as int) <= acc <= 1000 * (s as int),
        decreases 64 - s,
    {
        let sq = Square(s);
        proof {
            lemma_sq_score_bound(sqv, endgame, s as int);
        }
        match board.piece_at(sq) {
            Some((c, pc)) => {
                let base: i32 = match pc {
                    Piece::Pawn => 100,
                    Piece::Rook => 500,
                    Piece::Knight => 320,
                    Piece::Bishop => 330,
                    Piece::Queen => 900,
                    Piece::King => 0,
                };
                match c {
                    Color::White => {
                        acc = acc + base + pst_lookup(pc, endgame, s);
                    },
                    Color::Black => {
                        acc = acc - (base + pst_lookup(pc, endgame, 63 - s));
                    },
                }
            },
            None => {},
        }
        s = s + 1;
    }
    match board.side {
        Color::White => acc,
        Color::Black => -acc,
    }
}

} // verus!
