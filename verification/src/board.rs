//! The position model: bitboards and mailbox kept in lock step, side
//! to move, castling rights, en passant, clocks, incrementally
//! maintained Zobrist key, checkers, and the undo history.

use vstd::prelude::*;
use crate::attacks::{
    attacked, attacker_at, bishop_targets, decode_sq, encode_sq, king_targets, knight_targets,
    mailbox_ok, mailbox_view, on_board, pawn_attack_geo, pawn_dir, pawn_targets, piece_attacks,
    rook_targets, sq_file, sq_rank, Squares, EMPTY_SQ,
};
use crate::bits::{bb_count, bb_get, BitBoard};
use crate::bits::{
    lemma_bb_single, lemma_bb_xor, lemma_count_empty, lemma_count_flip, lemma_xor_assoc,
    lemma_xor_cancel, lemma_xor_comm, lemma_xor_zero,
};
use crate::color::Color;
use crate::moves::Move;
use crate::piece::Piece;
use crate::square::Square;
use crate::zobrist::{
    piece_key_idx, spec_key_at, Zobrist, ZobristKeys, CASTLE_KEYS, EP_KEYS, SIDE_KEY,
};

verus! {

/// The castling-rights bit of White's king side.
pub const CASTLE_WK: u8 = 1;

/// The castling-rights bit of White's queen side.
pub const CASTLE_WQ: u8 = 2;

/// The castling-rights bit of Black's king side.
pub const CASTLE_BK: u8 = 4;

/// The castling-rights bit of Black's queen side.
pub const CASTLE_BQ: u8 = 8;

/// The abstract state of a position: what a board means.
#[verifier::ext_equal]
pub struct Position {
    /// What stands on each of the 64 squares.
    pub squares: Squares,
    /// The side to move.
    pub side: Color,
    /// The castling-rights mask, 4 bits.
    pub castle: int,
    /// The en-passant target square, if any.
    pub ep: Option<int>,
    /// The half-move clock of the fifty-move rule.
    pub halfmove: int,
    /// The full-move counter, counted from 1.
    pub fullmove: int,
}

/// The checkers word of a placement: it marks exactly the opposing
/// pieces that attack the given side's king square.
pub open spec fn checkers_ok(sqv: Squares, side: Color, word: u64) -> bool {
    forall|s: u64, t: u64|
        s < 64 && t < 64 && sqv[t as int] == Some((side, Piece::King)) ==> (#[trigger] bb_get(
            word,
            s,
        ) <==> #[trigger] attacker_at(sqv, side.spec_invert(), s as int, t as int))
}

/// One record of the undo history, pushed by each do_move.
#[derive(Clone, Copy, Debug)]
pub struct HistRec {
    /// The Zobrist key before the move.
    pub zobrist: u64,
    /// The half-move clock before the move.
    pub halfmove: u16,
    /// The castling rights before the move.
    pub castle: u8,
    /// The en-passant target before the move.
    pub ep: Option<Square>,
    /// The full-move counter before the move.
    pub fullmove: u16,
    /// The checkers bitboard before the move.
    pub checkers: u64,
}

/// Number of pieces of a color and kind among the squares below `n`.
pub open spec fn occ_count(sq: Squares, c: Color, p: Piece, n: int) -> nat
    decreases n,
{
    if n <= 0 {
        0
    } else {
        occ_count(sq, c, p, n - 1) + if sq[n - 1] == Some((c, p)) {
            1nat
        } else {
            0nat
        }
    }
}

/// The Zobrist contribution of the occupant of square `s`.
pub open spec fn sq_key(s: int, occ: Option<(Color, Piece)>) -> u64 {
    match occ {
        Some((c, p)) => spec_key_at(piece_key_idx(c, p, s) as nat),
        None => 0u64,
    }
}

/// The exclusive or of the piece keys of the squares below `n`.
pub open spec fn zob_squares(sq: Squares, n: int) -> u64
    decreases n,
{
    if n <= 0 {
        0u64
    } else {
        zob_squares(sq, n - 1) ^ sq_key(n - 1, sq[n - 1])
    }
}

/// The side-to-move Zobrist contribution: one key, for Black.
pub open spec fn side_key_of(c: Color) -> u64 {
    match c {
        Color::White => 0u64,
        Color::Black => spec_key_at(SIDE_KEY as nat),
    }
}

/// The en-passant Zobrist contribution: one key per file.
pub open spec fn ep_key_of(ep: Option<int>) -> u64 {
    match ep {
        Some(e) => spec_key_at((EP_KEYS + sq_file(e)) as nat),
        None => 0u64,
    }
}

/// The Zobrist key of a position, recomputed from scratch: the
/// exclusive or over all (color, piece, square) present, plus the
/// side-to-move, castling and en-passant contributions.
pub open spec fn spec_zobrist(p: Position) -> u64 {
    zob_squares(p.squares, 64) ^ side_key_of(p.side) ^ spec_key_at((CASTLE_KEYS + p.castle) as nat)
        ^ ep_key_of(p.ep)
}

/// The rank of the en-passant target a side to move may capture on.
pub open spec fn ep_rank_of(side: Color) -> int {
    match side {
        Color::White => 5,
        Color::Black => 2,
    }
}

/// Validity of the abstract state: 64 squares, a 4-bit castling
/// mask, an en-passant target on the right rank, clocks in range,
/// and exactly one king a side.
pub open spec fn pos_ok(p: Position) -> bool {
    &&& p.squares.len() == 64
    &&& 0 <= p.castle < 16
    &&& match p.ep {
        Some(e) => on_board(e) && sq_rank(e) == ep_rank_of(p.side),
        None => true,
    }
    &&& 0 <= p.halfmove <= u16::MAX
    &&& 1 <= p.fullmove <= u16::MAX
    &&& occ_count(p.squares, Color::White, Piece::King, 64) == 1
    &&& occ_count(p.squares, Color::Black, Piece::King, 64) == 1
}

/// Holds, in a form cheap to update incrementally, one chess
/// position and the history needed to undo moves and detect
/// repetitions.
#[derive(Clone, Debug)]
pub struct Board {
    /// The Zobrist key table, fixed at construction.
    pub keys: ZobristKeys,
    /// Twelve piece boards, indexed `color * 6 + piece`.
    pub bb: Vec<u64>,
    /// Two per-color occupancy words.
    pub color_occ: Vec<u64>,
    /// Redundant per-square map for O(1) piece lookup.
    pub mailbox: Vec<u8>,
    /// The side to move.
    pub side: Color,
    /// The castling-rights mask.
    pub castle: u8,
    /// The en-passant target square, if any.
    pub ep: Option<Square>,
    /// The half-move clock of the fifty-move rule.
    pub halfmove: u16,
    /// The full-move counter, counted from 1.
    pub fullmove: u16,
    /// The incrementally maintained Zobrist key.
    pub zobrist: u64,
    /// The pieces giving check to the side to move.
    pub checkers: u64,
    /// The undo history ring.
    pub history: Vec<HistRec>,
}

impl View for Board {
    type V = Position;

    open spec fn view(&self) -> Position {
        Position {
            squares: mailbox_view(self.mailbox@),
            side: self.side,
            castle: self.castle as int,
            ep: match self.ep {
                Some(sq) => Some(sq.0 as int),
                None => None,
            },
            halfmove: self.halfmove as int,
            fullmove: self.fullmove as int,
        }
    }
}

impl Board {
    /// The boards, the occupancy words and the mailbox agree: a
    /// piece board has a bit exactly where the mailbox has its
    /// code, and the occupancy words are the per-color unions.
    pub open spec fn boards_ok(self) -> bool {
        &&& self.bb@.len() == 12
        &&& self.color_occ@.len() == 2
        &&& mailbox_ok(self.mailbox@)
        &&& forall|pi: int, s: u64|
            0 <= pi < 12 && s < 64 ==> (#[trigger] bb_get(self.bb@[pi], s) <==> self.mailbox@[s as int] == pi)
        &&& forall|ci: int, s: u64|
            0 <= ci < 2 && s < 64 ==> (#[trigger] bb_get(self.color_occ@[ci], s)
                <==> self.mailbox@[s as int] < 12 && self.mailbox@[s as int] / 6 == ci)
    }

    /// The checkers word marks exactly the opposing pieces that
    /// attack the given side's king square.
    pub open spec fn checkers_ok_for(self, word: u64, side: Color) -> bool {
        checkers_ok(self@.squares, side, word)
    }

    /// The full invariant: key table fixed, boards in lock step,
    /// abstract state valid, Zobrist equal to the from-scratch
    /// recomputation, and checkers exact.
    pub open spec fn wf(self) -> bool {
        &&& self.keys.wf()
        &&& self.boards_ok()
        &&& pos_ok(self@)
        &&& self.zobrist == spec_zobrist(self@)
        &&& self.checkers_ok_for(self.checkers, self.side)
    }

    /// The piece board of a color and piece kind.
    pub fn get_bitboard(&self, c: Color, p: Piece) -> (r: BitBoard)
        requires
            self.boards_ok(),
        ensures
            r.0 == self.bb@[c.spec_idx() * 6 + p.spec_idx()],
            forall|s: u64|
                s < 64 ==> (#[trigger] r.spec_has(s) <==> self@.squares[s as int] == Some((c, p))),
    {
        let r = BitBoard(self.bb[c.idx() * 6 + p.idx()]);
        proof {
            assert forall|s: u64| s < 64 implies (r.spec_has(s) <==> self@.squares[s as int]
                == Some((c, p))) by {
                assert(self@.squares[s as int] == decode_sq(self.mailbox@[s as int]));
            }
        }
        r
    }

    /// The occupancy word of one color.
    pub fn get_color_occupancy(&self, c: Color) -> (r: BitBoard)
        requires
            self.boards_ok(),
        ensures
            r.0 == self.color_occ@[c.spec_idx()],
            forall|s: u64|
                s < 64 ==> (#[trigger] r.spec_has(s) <==> match self@.squares[s as int] {
                    Some((oc, p)) => oc == c,
                    None => false,
                }),
    {
        let r = BitBoard(self.color_occ[c.idx()]);
        proof {
            assert forall|s: u64| s < 64 implies (r.spec_has(s) <==> match self@.squares[s as int] {
                Some((oc, p)) => oc == c,
                None => false,
            }) by {
                assert(self@.squares[s as int] == decode_sq(self.mailbox@[s as int]));
            }
        }
        r
    }

    /// The occupancy of the whole board.
    pub fn get_occupancy(&self) -> (r: BitBoard)
        requires
            self.boards_ok(),
        ensures
            forall|s: u64|
                s < 64 ==> (#[trigger] r.spec_has(s) <==> self@.squares[s as int] is Some),
    {
        self.get_color_occupancy(Color::White).union(self.get_color_occupancy(Color::Black))
    }

    /// What stands on a square.
    pub fn piece_at(&self, s: Square) -> (r: Option<(Color, Piece)>)
        requires
            self.boards_ok(),
            s.wf(),
        ensures
            r == self@.squares[s.0 as int],
    {
        let code: u8 = self.mailbox[s.0 as usize];
        proof {
            assert(self@.squares[s.0 as int] == decode_sq(code));
        }
        if code < 6 {
            Some((Color::White, Piece::from_idx(code as usize)))
        } else if code < 12 {
            Some((Color::Black, Piece::from_idx((code - 6) as usize)))
        } else {
            None
        }
    }

    /// The side to move.
    pub fn get_side_to_move(&self) -> (r: Color)
        ensures
            r == self@.side,
    {
        self.side
    }

    /// The pieces giving check to the side to move.
    pub fn get_checkers(&self) -> (r: BitBoard)
        ensures
            r.0 == self.checkers,
    {
        BitBoard(self.checkers)
    }

    /// The Zobrist key of the position.
    pub fn get_zobrist(&self) -> (r: Zobrist)
        ensures
            r.0 == self.zobrist,
    {
        Zobrist(self.zobrist)
    }

    /// The full-move counter.
    pub fn get_ply(&self) -> (r: u16)
        ensures
            r == self@.fullmove,
    {
        self.fullmove
    }

    /// The half-move clock.
    pub fn get_halfmove(&self) -> (r: u16)
        ensures
            r == self@.halfmove,
    {
        self.halfmove
    }

    /// The square of the given side's king.
    pub fn get_king_sq(&self, c: Color) -> (r: Square)
        requires
            self.boards_ok(),
            occ_count(self@.squares, c, Piece::King, 64) == 1,
        ensures
            r.wf(),
            self@.squares[r.0 as int] == Some((c, Piece::King)),
    {
        let kings = self.get_bitboard(c, Piece::King);
        proof {
            if kings.0 == 0u64 {
                lemma_count_empty();
                lemma_occ_count_le_bb(*self, c, Piece::King, 64);
                assert(false);
            }
        }
        let s: u8 = kings.first_square();
        Square(s)
    }

    /// All opposing pieces of `by` that attack square `t`.
    pub fn attackers_to(&self, t: Square, by: Color) -> (r: BitBoard)
        requires
            self.boards_ok(),
            t.wf(),
        ensures
            forall|s: u64|
                s < 64 ==> (#[trigger] r.spec_has(s) <==> attacker_at(
                    self@.squares,
                    by,
                    s as int,
                    t.0 as int,
                )),
    {
        let ghost sqv = self@.squares;
        let ghost ti = t.0 as int;
        let knights = knight_targets(t).inter(self.get_bitboard(by, Piece::Knight));
        let kings = king_targets(t).inter(self.get_bitboard(by, Piece::King));
        let rooks_queens = self.get_bitboard(by, Piece::Rook).union(
            self.get_bitboard(by, Piece::Queen),
        );
        let rook_rays = rook_targets(&self.mailbox, t).inter(rooks_queens);
        let bishops_queens = self.get_bitboard(by, Piece::Bishop).union(
            self.get_bitboard(by, Piece::Queen),
        );
        let bishop_rays = bishop_targets(&self.mailbox, t).inter(bishops_queens);
        let pawns = pawn_targets(by.invert(), t).inter(self.get_bitboard(by, Piece::Pawn));
        let r = knights.union(kings).union(rook_rays.union(bishop_rays)).union(pawns);
        proof {
            assert forall|s: u64| s < 64 implies (r.spec_has(s) <==> attacker_at(
                sqv,
                by,
                s as int,
                ti,
            )) by {
                let si = s as int;
                crate::attacks::lemma_knight_sym(ti, si);
                crate::attacks::lemma_king_sym(ti, si);
                crate::attacks::lemma_rook_sym(sqv, ti, si);
                crate::attacks::lemma_rook_sym(sqv, si, ti);
                crate::attacks::lemma_bishop_sym(sqv, ti, si);
                crate::attacks::lemma_bishop_sym(sqv, si, ti);
                lemma_pawn_sym(by, si, ti);
            }
        }
        r
    }

    /// Whether a side's pieces attack a square.
    pub fn square_attacked(&self, t: Square, by: Color) -> (r: bool)
        requires
            self.boards_ok(),
            t.wf(),
        ensures
            r == attacked(self@.squares, by, t.0 as int),
    {
        let word = self.attackers_to(t, by);
        proof {
            if word.0 != 0u64 {
                broadcast use vstd::std_specs::bits::axiom_u64_trailing_zeros;

                let tz = word.0.trailing_zeros();
                assert(word.spec_has(tz as u64));
                assert(attacker_at(self@.squares, by, tz as int, t.0 as int));
            } else {
                assert forall|s: int| !attacker_at(self@.squares, by, s, t.0 as int) by {
                    if on_board(s) {
                        crate::bits::lemma_bb_empty(s as u64);
                        assert(!word.spec_has(s as u64));
                    }
                }
            }
        }
        word.not_empty()
    }
}

/// A pawn attack read backwards is an attack by the other color.
proof fn lemma_pawn_sym(c: Color, a: int, b: int)
    ensures
        pawn_attack_geo(c, a, b) == pawn_attack_geo(c.spec_invert(), b, a),
{
}

/// A word whose bits are piece occurrences counts at least the
/// occurrence count: with a zero word the count is zero.
proof fn lemma_occ_count_le_bb(b: Board, c: Color, p: Piece, n: int)
    requires
        b.boards_ok(),
        b.bb@[c.spec_idx() * 6 + p.spec_idx()] == 0u64,
        n <= 64,
    ensures
        occ_count(b@.squares, c, p, n) == 0,
    decreases n,
{
    if n > 0 {
        lemma_occ_count_le_bb(b, c, p, n - 1);
        if b@.squares[n - 1] == Some((c, p)) {
            assert(b@.squares[n - 1] == decode_sq(b.mailbox@[n - 1]));
            assert(b.mailbox@[n - 1] == c.spec_idx() * 6 + p.spec_idx());
            crate::bits::lemma_bb_empty((n - 1) as u64);
            assert(false);
        }
    }
}

impl Board {
    /// A deep copy of the board: the same position, history and
    /// derived state, usable as a worker's local board.
    pub fn duplicate(&self) -> (r: Board)
        requires
            self.wf(),
        ensures
            r.wf(),
            r@ == self@,
            r.history@ == self.history@,
            r.zobrist == self.zobrist,
            r.checkers == self.checkers,
            r.keys.wf(),
    {
        let keys = crate::zobrist::ZobristKeys { keys: clone_u64_vec(&self.keys.keys) };
        let r = Board {
            keys,
            bb: clone_u64_vec(&self.bb),
            color_occ: clone_u64_vec(&self.color_occ),
            mailbox: clone_u8_vec(&self.mailbox),
            side: self.side,
            castle: self.castle,
            ep: self.ep,
            halfmove: self.halfmove,
            fullmove: self.fullmove,
            zobrist: self.zobrist,
            checkers: self.checkers,
            history: clone_hist_vec(&self.history),
        };
        proof {
            assert(r@ =~= self@);
            assert(r.history@ =~= self.history@);
        }
        r
    }
}

/// Copies a vector of words.
fn clone_u64_vec(v: &Vec<u64>) -> (r: Vec<u64>)
    ensures
        r@ == v@,
{
    let mut out: Vec<u64> = Vec::new();
    let mut i: usize = 0;
    let n = v.len();
    while i < n
        invariant
            n == v@.len(),
            i <= n,
            out@ == v@.subrange(0, i as int),
        decreases n - i,
    {
        out.push(v[i]);
        proof {
            assert(out@ =~= v@.subrange(0, i + 1));
        }
        i = i + 1;
    }
    proof {
        assert(out@ =~= v@);
    }
    out
}

/// Copies a vector of square codes.
fn clone_u8_vec(v: &Vec<u8>) -> (r: Vec<u8>)
    ensures
        r@ == v@,
{
    let mut out: Vec<u8> = Vec::new();
    let mut i: usize = 0;
    let n = v.len();
    while i < n
        invariant
            n == v@.len(),
            i <= n,
            out@ == v@.subrange(0, i as int),
        decreases n - i,
    {
        out.push(v[i]);
        proof {
            assert(out@ =~= v@.subrange(0, i + 1));
        }
        i = i + 1;
    }
    proof {
        assert(out@ =~= v@);
    }
    out
}

/// Copies the undo history.
fn clone_hist_vec(v: &Vec<HistRec>) -> (r: Vec<HistRec>)
    ensures
        r@ == v@,
{
    let mut out: Vec<HistRec> = Vec::new();
    let mut i: usize = 0;
    let n = v.len();
    while i < n
        invariant
            n == v@.len(),
            i <= n,
            out@ == v@.subrange(0, i as int),
        decreases n - i,
    {
        out.push(v[i]);
        proof {
            assert(out@ =~= v@.subrange(0, i + 1));
        }
        i = i + 1;
    }
    proof {
        assert(out@ =~= v@);
    }
    out
}

impl Board {
    /// Builds a fresh board of the same position, as a parser
    /// would: the same placement and meta state, an empty history,
    /// and all derived state recomputed from scratch.
    pub fn reparse(&self) -> (r: Board)
        requires
            self.wf(),
        ensures
            r.wf(),
            r@ == self@,
            r.history@ == Seq::<HistRec>::empty(),
            r.zobrist == self.zobrist,
            r.checkers == self.checkers,
    {
        proof {
            lemma_one_king(*self, Color::White);
            lemma_one_king(*self, Color::Black);
        }
        let r = match Board::from_parts(
            &self.mailbox,
            self.side,
            self.castle,
            self.ep,
            self.halfmove,
            self.fullmove,
        ) {
            Some(b) => b,
            None => self.duplicate(),
        };
        proof {
            assert(r@ =~= self@);
            lemma_occ_nonzero_exists(self@.squares, self.side, Piece::King, 64);
            let tk = choose|t: int|
                0 <= t < 64 && self@.squares[t] == Some((self.side, Piece::King));
            assert forall|s2: u64| s2 < 64 implies bb_get(r.checkers, s2) == bb_get(
                self.checkers,
                s2,
            ) by {
                assert(bb_get(r.checkers, s2) <==> attacker_at(
                    r@.squares,
                    r.side.spec_invert(),
                    s2 as int,
                    tk,
                ));
                assert(bb_get(self.checkers, s2) <==> attacker_at(
                    self@.squares,
                    self.side.spec_invert(),
                    s2 as int,
                    tk,
                ));
            }
            assert forall|s2: u64| s2 >= 64 implies bb_get(r.checkers, s2) == bb_get(
                self.checkers,
                s2,
            ) by {
                crate::bits::lemma_bb_high(r.checkers, s2);
                crate::bits::lemma_bb_high(self.checkers, s2);
            }
            crate::bits::lemma_bb_ext(r.checkers, self.checkers);
        }
        r
    }
}

/// A positive count has a witness square.
proof fn lemma_occ_nonzero_exists(sq: Squares, c: Color, p: Piece, n: int)
    requires
        occ_count(sq, c, p, n) > 0,
        n <= 64,
    ensures
        exists|t: int| 0 <= t < n && sq[t] == Some((c, p)),
    decreases n,
{
    if n > 0 {
        if sq[n - 1] == Some((c, p)) {
            assert(0 <= n - 1 < n && sq[n - 1] == Some((c, p)));
        } else {
            lemma_occ_nonzero_exists(sq, c, p, n - 1);
        }
    }
}

/// Swapping the last two terms of an exclusive-or chain.
pub proof fn lemma_xor_swap(x: u64, y: u64, z: u64)
    ensures
        (x ^ y) ^ z == (x ^ z) ^ y,
{
    lemma_xor_assoc(x, y, z);
    lemma_xor_comm(y, z);
    lemma_xor_assoc(x, z, y);
}

/// Updating one square changes the piece-key fold by the old and
/// the new contribution of that square.
pub proof fn lemma_zob_update(sq: Squares, s: int, v: Option<(Color, Piece)>, n: int)
    requires
        sq.len() == 64,
        0 <= s < 64,
        n <= 64,
    ensures
        zob_squares(sq.update(s, v), n) == if s < n {
            zob_squares(sq, n) ^ (sq_key(s, sq[s]) ^ sq_key(s, v))
        } else {
            zob_squares(sq, n)
        },
    decreases n,
{
    let sq2 = sq.update(s, v);
    if n > 0 {
        lemma_zob_update(sq, s, v, n - 1);
        let za = zob_squares(sq, n - 1);
        let ko = sq_key(s, sq[s]);
        let kv = sq_key(s, v);
        let kn = sq_key(n - 1, sq[n - 1]);
        if s == n - 1 {
            assert(zob_squares(sq2, n) == za ^ sq_key(s, v));
            lemma_xor_assoc(za, ko, ko ^ kv);
            lemma_xor_cancel(ko, kv);
        } else if s < n - 1 {
            assert(sq2[n - 1] == sq[n - 1]);
            assert(zob_squares(sq2, n) == (za ^ (ko ^ kv)) ^ kn);
            lemma_xor_swap(za, ko ^ kv, kn);
        } else {
            assert(sq2[n - 1] == sq[n - 1]);
        }
    }
}

impl Board {
    /// Puts a piece of a color on an empty square, updating the
    /// boards, the occupancy, the mailbox and the piece part of the
    /// Zobrist key in lock step.
    fn put_piece(&mut self, c: Color, p: Piece, s: Square)
        requires
            old(self).boards_ok(),
            old(self).keys.wf(),
            s.wf(),
            old(self)@.squares[s.0 as int] is None,
        ensures
            final(self).boards_ok(),
            final(self)@.squares == old(self)@.squares.update(s.0 as int, Some((c, p))),
            final(self).zobrist == old(self).zobrist ^ sq_key(s.0 as int, Some((c, p))),
            final(self).bb@[c.spec_idx() * 6 + p.spec_idx()] == old(self).bb@[c.spec_idx() * 6
                + p.spec_idx()] ^ (1u64 << (s.0 as u64)),
            forall|pi: int|
                0 <= pi < 12 && pi != c.spec_idx() * 6 + p.spec_idx() ==> final(self).bb@[pi]
                    == old(self).bb@[pi],
            final(self).keys == old(self).keys,
            final(self).side == old(self).side,
            final(self).castle == old(self).castle,
            final(self).ep == old(self).ep,
            final(self).halfmove == old(self).halfmove,
            final(self).fullmove == old(self).fullmove,
            final(self).checkers == old(self).checkers,
            final(self).history == old(self).history,
    {
        proof {
            broadcast use lemma_bb_xor, lemma_bb_single;

        }
        let idx: usize = c.idx() * 6 + p.idx();
        let ci: usize = c.idx();
        let code: u8 = idx as u8;
        let mask: u64 = 1u64 << (s.0 as u64);
        proof {
            assert(decode_sq(old(self).mailbox@[s.0 as int]) is None);
            assert(old(self).mailbox@[s.0 as int] == EMPTY_SQ);
            assert(!bb_get(self.bb@[idx as int], s.0 as u64));
            assert(!bb_get(self.color_occ@[ci as int], s.0 as u64));
        }
        let word: u64 = self.bb[idx] ^ mask;
        self.bb[idx] = word;
        let occ_word: u64 = self.color_occ[ci] ^ mask;
        self.color_occ[ci] = occ_word;
        self.mailbox[s.0 as usize] = code;
        let key: u64 = self.keys.piece_key(c, p, s.0);
        self.zobrist = self.zobrist ^ key;
        proof {
            let sqv = old(self)@.squares;
            assert forall|i: int| 0 <= i < 64 implies final(self)@.squares[i] == sqv.update(
                s.0 as int,
                Some((c, p)),
            )[i] by {
                assert(final(self)@.squares[i] == decode_sq(final(self).mailbox@[i]));
                if i == s.0 as int {
                    assert(decode_sq(code) == Some((c, p)));
                }
            }
            assert(final(self)@.squares =~= sqv.update(s.0 as int, Some((c, p))));
            assert forall|pi: int, s2: u64|
                0 <= pi < 12 && s2 < 64 implies (#[trigger] bb_get(final(self).bb@[pi], s2)
                <==> final(self).mailbox@[s2 as int] == pi) by {
                if pi == idx as int {
                    assert(final(self).bb@[pi] == old(self).bb@[pi] ^ mask);
                } else {
                    assert(final(self).bb@[pi] == old(self).bb@[pi]);
                }
            }
            assert forall|ci2: int, s2: u64|
                0 <= ci2 < 2 && s2 < 64 implies (#[trigger] bb_get(final(self).color_occ@[ci2], s2)
                <==> final(self).mailbox@[s2 as int] < 12 && final(self).mailbox@[s2 as int] / 6
                    == ci2) by {
                if ci2 == ci as int {
                    assert(final(self).color_occ@[ci2] == old(self).color_occ@[ci2] ^ mask);
                } else {
                    assert(final(self).color_occ@[ci2] == old(self).color_occ@[ci2]);
                }
            }
        }
    }

    /// Removes the piece of a color from its square, updating the
    /// boards, the occupancy, the mailbox and the piece part of the
    /// Zobrist key in lock step.
    fn remove_piece(&mut self, c: Color, p: Piece, s: Square)
        requires
            old(self).boards_ok(),
            old(self).keys.wf(),
            s.wf(),
            old(self)@.squares[s.0 as int] == Some((c, p)),
        ensures
            final(self).boards_ok(),
            final(self)@.squares == old(self)@.squares.update(s.0 as int, None::<(Color, Piece)>),
            final(self).zobrist == old(self).zobrist ^ sq_key(s.0 as int, Some((c, p))),
            final(self).bb@[c.spec_idx() * 6 + p.spec_idx()] == old(self).bb@[c.spec_idx() * 6
                + p.spec_idx()] ^ (1u64 << (s.0 as u64)),
            forall|pi: int|
                0 <= pi < 12 && pi != c.spec_idx() * 6 + p.spec_idx() ==> final(self).bb@[pi]
                    == old(self).bb@[pi],
            final(self).keys == old(self).keys,
            final(self).side == old(self).side,
            final(self).castle == old(self).castle,
            final(self).ep == old(self).ep,
            final(self).halfmove == old(self).halfmove,
            final(self).fullmove == old(self).fullmove,
            final(self).checkers == old(self).checkers,
            final(self).history == old(self).history,
    {
        proof {
            broadcast use lemma_bb_xor, lemma_bb_single;

        }
        let idx: usize = c.idx() * 6 + p.idx();
        let ci: usize = c.idx();
        let mask: u64 = 1u64 << (s.0 as u64);
        proof {
            assert(decode_sq(old(self).mailbox@[s.0 as int]) == Some((c, p)));
            assert(old(self).mailbox@[s.0 as int] == idx);
            assert(bb_get(self.bb@[idx as int], s.0 as u64));
            assert(bb_get(self.color_occ@[ci as int], s.0 as u64));
        }
        let word: u64 = self.bb[idx] ^ mask;
        self.bb[idx] = word;
        let occ_word: u64 = self.color_occ[ci] ^ mask;
        self.color_occ[ci] = occ_word;
        self.mailbox[s.0 as usize] = EMPTY_SQ;
        let key: u64 = self.keys.piece_key(c, p, s.0);
        self.zobrist = self.zobrist ^ key;
        proof {
            let sqv = old(self)@.squares;
            assert forall|i: int| 0 <= i < 64 implies final(self)@.squares[i] == sqv.update(
                s.0 as int,
                None::<(Color, Piece)>,
            )[i] by {
                assert(final(self)@.squares[i] == decode_sq(final(self).mailbox@[i]));
            }
            assert(final(self)@.squares =~= sqv.update(s.0 as int, None::<(Color, Piece)>));
            assert forall|pi: int, s2: u64|
                0 <= pi < 12 && s2 < 64 implies (#[trigger] bb_get(final(self).bb@[pi], s2)
                <==> final(self).mailbox@[s2 as int] == pi) by {
                if pi == idx as int {
                    assert(final(self).bb@[pi] == old(self).bb@[pi] ^ mask);
                } else {
                    assert(final(self).bb@[pi] == old(self).bb@[pi]);
                }
            }
            assert forall|ci2: int, s2: u64|
                0 <= ci2 < 2 && s2 < 64 implies (#[trigger] bb_get(final(self).color_occ@[ci2], s2)
                <==> final(self).mailbox@[s2 as int] < 12 && final(self).mailbox@[s2 as int] / 6
                    == ci2) by {
                if ci2 == ci as int {
                    assert(final(self).color_occ@[ci2] == old(self).color_occ@[ci2] ^ mask);
                } else {
                    assert(final(self).color_occ@[ci2] == old(self).color_occ@[ci2]);
                }
            }
        }
    }
}

/// Whether the castling right of the given bit (1, 2, 4 or 8) is
/// set in the 4-bit mask.
pub open spec fn has_right(castle: int, bit: int) -> bool {
    (castle / bit) % 2 == 1
}

/// The castling mask built from its four rights.
pub open spec fn castle_mask(wk: bool, wq: bool, bk: bool, bq: bool) -> int {
    (if wk {
        1int
    } else {
        0int
    }) + (if wq {
        2int
    } else {
        0int
    }) + (if bk {
        4int
    } else {
        0int
    }) + (if bq {
        8int
    } else {
        0int
    })
}

/// The castling rights after a move between `from` and `to`: a
/// right survives while neither square of its king or rook pair is
/// touched.
pub open spec fn spec_castle_after(castle: int, from: int, to: int) -> int {
    castle_mask(
        has_right(castle, 1) && from != 4 && from != 7 && to != 4 && to != 7,
        has_right(castle, 2) && from != 4 && from != 0 && to != 4 && to != 0,
        has_right(castle, 4) && from != 60 && from != 63 && to != 60 && to != 63,
        has_right(castle, 8) && from != 60 && from != 56 && to != 60 && to != 56,
    )
}

/// The square of the pawn an en-passant capture takes: one rank
/// behind the target, from the mover's point of view.
pub open spec fn ep_victim_sq(side: Color, to: int) -> int {
    to - 8 * pawn_dir(side)
}

/// The piece placement after a move of the given side.
pub open spec fn spec_squares_do(sq: Squares, side: Color, m: Move) -> Squares {
    match m {
        Move::Quiet { from, to } => sq.update(from.0 as int, None).update(
            to.0 as int,
            sq[from.0 as int],
        ),
        Move::DoublePush { from, to } => sq.update(from.0 as int, None).update(
            to.0 as int,
            sq[from.0 as int],
        ),
        Move::Capture { from, to, .. } => sq.update(to.0 as int, None).update(
            from.0 as int,
            None,
        ).update(to.0 as int, sq[from.0 as int]),
        Move::Promote { from, to, promote } => sq.update(from.0 as int, None).update(
            to.0 as int,
            Some((side, promote)),
        ),
        Move::PromoteCapture { from, to, promote, .. } => sq.update(to.0 as int, None).update(
            from.0 as int,
            None,
        ).update(to.0 as int, Some((side, promote))),
        Move::EnPassant { from, to } => sq.update(
            ep_victim_sq(side, to.0 as int),
            None,
        ).update(from.0 as int, None).update(to.0 as int, Some((side, Piece::Pawn))),
        Move::KingCastle => match side {
            Color::White => sq.update(4, None).update(7, None).update(
                6,
                Some((side, Piece::King)),
            ).update(5, Some((side, Piece::Rook))),
            Color::Black => sq.update(60, None).update(63, None).update(
                62,
                Some((side, Piece::King)),
            ).update(61, Some((side, Piece::Rook))),
        },
        Move::QueenCastle => match side {
            Color::White => sq.update(4, None).update(0, None).update(
                2,
                Some((side, Piece::King)),
            ).update(3, Some((side, Piece::Rook))),
            Color::Black => sq.update(60, None).update(56, None).update(
                58,
                Some((side, Piece::King)),
            ).update(59, Some((side, Piece::Rook))),
        },
        Move::Null => sq,
    }
}

/// Whether the move moves a pawn, for the half-move clock.
pub open spec fn is_pawn_move(sq: Squares, side: Color, m: Move) -> bool {
    match m {
        Move::DoublePush { .. } | Move::EnPassant { .. } | Move::Promote { .. }
            | Move::PromoteCapture { .. } => true,
        Move::Quiet { from, .. } => sq[from.0 as int] == Some((side, Piece::Pawn)),
        Move::Capture { from, .. } => sq[from.0 as int] == Some((side, Piece::Pawn)),
        _ => false,
    }
}

/// The structural conditions under which a move can be applied to a
/// position: the named squares hold what the move claims. Every
/// pseudo-legal move meets them.
pub open spec fn spec_move_ok(p: Position, m: Move) -> bool {
    let side = p.side;
    let them = side.spec_invert();
    match m {
        Move::Quiet { from, to } => {
            &&& from.wf()
            &&& to.wf()
            &&& from != to
            &&& match p.squares[from.0 as int] {
                Some((c, _)) => c == side,
                None => false,
            }
            &&& p.squares[to.0 as int] is None
        },
        Move::Capture { from, to, capture } => {
            &&& from.wf()
            &&& to.wf()
            &&& from != to
            &&& match p.squares[from.0 as int] {
                Some((c, _)) => c == side,
                None => false,
            }
            &&& p.squares[to.0 as int] == Some((them, capture))
            &&& capture != Piece::King
        },
        Move::Promote { from, to, promote } => {
            &&& from.wf()
            &&& to.wf()
            &&& from != to
            &&& p.squares[from.0 as int] == Some((side, Piece::Pawn))
            &&& p.squares[to.0 as int] is None
            &&& promote != Piece::Pawn
            &&& promote != Piece::King
        },
        Move::PromoteCapture { from, to, capture, promote } => {
            &&& from.wf()
            &&& to.wf()
            &&& from != to
            &&& p.squares[from.0 as int] == Some((side, Piece::Pawn))
            &&& p.squares[to.0 as int] == Some((them, capture))
            &&& capture != Piece::King
            &&& promote != Piece::Pawn
            &&& promote != Piece::King
        },
        Move::EnPassant { from, to } => {
            let victim = ep_victim_sq(side, to.0 as int);
            &&& from.wf()
            &&& to.wf()
            &&& p.ep == Some(to.0 as int)
            &&& p.squares[from.0 as int] == Some((side, Piece::Pawn))
            &&& p.squares[to.0 as int] is None
            &&& on_board(victim)
            &&& victim != from.0 as int
            &&& victim != to.0 as int
            &&& p.squares[victim] == Some((them, Piece::Pawn))
            &&& iabs_file(from.0 as int, to.0 as int) == 1
            &&& sq_rank(to.0 as int) - sq_rank(from.0 as int) == pawn_dir(side)
        },
        Move::DoublePush { from, to } => {
            &&& from.wf()
            &&& to.wf()
            &&& p.squares[from.0 as int] == Some((side, Piece::Pawn))
            &&& p.squares[to.0 as int] is None
            &&& to.0 as int == from.0 as int + 16 * pawn_dir(side)
            &&& on_board(from.0 as int + 8 * pawn_dir(side))
            &&& p.squares[from.0 as int + 8 * pawn_dir(side)] is None
            &&& sq_rank(from.0 as int) == (match side {
                Color::White => 1int,
                Color::Black => 6int,
            })
        },
        Move::KingCastle => match side {
            Color::White => {
                &&& has_right(p.castle, 1)
                &&& p.squares[4] == Some((side, Piece::King))
                &&& p.squares[7] == Some((side, Piece::Rook))
                &&& p.squares[5] is None
                &&& p.squares[6] is None
            },
            Color::Black => {
                &&& has_right(p.castle, 4)
                &&& p.squares[60] == Some((side, Piece::King))
                &&& p.squares[63] == Some((side, Piece::Rook))
                &&& p.squares[61] is None
                &&& p.squares[62] is None
            },
        },
        Move::QueenCastle => match side {
            Color::White => {
                &&& has_right(p.castle, 2)
                &&& p.squares[4] == Some((side, Piece::King))
                &&& p.squares[0] == Some((side, Piece::Rook))
                &&& p.squares[1] is None
                &&& p.squares[2] is None
                &&& p.squares[3] is None
            },
            Color::Black => {
                &&& has_right(p.castle, 8)
                &&& p.squares[60] == Some((side, Piece::King))
                &&& p.squares[56] == Some((side, Piece::Rook))
                &&& p.squares[57] is None
                &&& p.squares[58] is None
                &&& p.squares[59] is None
            },
        },
        Move::Null => false,
    }
}

/// The absolute file distance of two squares.
pub open spec fn iabs_file(a: int, b: int) -> int {
    crate::attacks::iabs(sq_file(b) - sq_file(a))
}

/// The position after a move of the side to move: pieces moved,
/// side flipped, castling rights and en passant updated, clocks
/// advanced.
pub open spec fn spec_do(p: Position, m: Move) -> Position {
    let side = p.side;
    let from = m.spec_from(side).0 as int;
    let to = m.spec_to(side).0 as int;
    Position {
        squares: spec_squares_do(p.squares, side, m),
        side: side.spec_invert(),
        castle: spec_castle_after(p.castle, from, to),
        ep: match m {
            Move::DoublePush { from, .. } => Some(from.0 as int + 8 * pawn_dir(side)),
            _ => None,
        },
        halfmove: if is_pawn_move(p.squares, side, m) || m.spec_is_capture() {
            0
        } else if p.halfmove < u16::MAX {
            p.halfmove + 1
        } else {
            p.halfmove
        },
        fullmove: if side is Black && p.fullmove < u16::MAX {
            p.fullmove + 1
        } else {
            p.fullmove
        },
    }
}

/// Updating one square changes the per-kind count by the old and
/// new occupant of that square.
pub proof fn lemma_occ_update(
    sq: Squares,
    s: int,
    v: Option<(Color, Piece)>,
    c: Color,
    p: Piece,
    n: int,
)
    requires
        sq.len() == 64,
        0 <= s < 64,
        n <= 64,
    ensures
        occ_count(sq.update(s, v), c, p, n) == if s < n {
            occ_count(sq, c, p, n) - (if sq[s] == Some((c, p)) {
                1int
            } else {
                0int
            }) + (if v == Some((c, p)) {
                1int
            } else {
                0int
            })
        } else {
            occ_count(sq, c, p, n) as int
        },
    decreases n,
{
    if n > 0 {
        lemma_occ_update(sq, s, v, c, p, n - 1);
        if s != n - 1 {
            assert(sq.update(s, v)[n - 1] == sq[n - 1]);
        }
    }
}

/// A single king cannot stand on two squares.
pub proof fn lemma_king_unique(sq: Squares, c: Color, t1: int, t2: int)
    requires
        sq.len() == 64,
        occ_count(sq, c, Piece::King, 64) == 1,
        0 <= t1 < 64,
        0 <= t2 < 64,
        sq[t1] == Some((c, Piece::King)),
        sq[t2] == Some((c, Piece::King)),
    ensures
        t1 == t2,
{
    if t1 != t2 {
        let lo = if t1 < t2 {
            t1
        } else {
            t2
        };
        let hi = if t1 < t2 {
            t2
        } else {
            t1
        };
        lemma_occ_two(sq, c, Piece::King, lo, hi, 64);
    }
}

/// Two distinct occurrences below `n` force a count of at least two.
proof fn lemma_occ_two(sq: Squares, c: Color, p: Piece, lo: int, hi: int, n: int)
    requires
        sq.len() == 64,
        0 <= lo < hi < n <= 64,
        sq[lo] == Some((c, p)),
        sq[hi] == Some((c, p)),
    ensures
        occ_count(sq, c, p, n) >= 2,
    decreases n,
{
    if hi == n - 1 {
        lemma_occ_one(sq, c, p, lo, n - 1);
    } else {
        lemma_occ_two(sq, c, p, lo, hi, n - 1);
    }
}

/// One occurrence below `n` forces a count of at least one.
proof fn lemma_occ_one(sq: Squares, c: Color, p: Piece, lo: int, n: int)
    requires
        sq.len() == 64,
        0 <= lo < n <= 64,
        sq[lo] == Some((c, p)),
    ensures
        occ_count(sq, c, p, n) >= 1,
    decreases n,
{
    if lo < n - 1 {
        lemma_occ_one(sq, c, p, lo, n - 1);
    }
}

/// Moving preserves the king counts: no move of the structural kind
/// creates or removes a king.
pub proof fn lemma_kings_preserved(p: Position, m: Move, c: Color)
    requires
        pos_ok(p),
        spec_move_ok(p, m),
    ensures
        occ_count(spec_squares_do(p.squares, p.side, m), c, Piece::King, 64) == occ_count(
            p.squares,
            c,
            Piece::King,
            64,
        ),
{
    let sq = p.squares;
    let side = p.side;
    match m {
        Move::Quiet { from, to } => {
            let u1 = sq.update(from.0 as int, None);
            lemma_occ_update(sq, from.0 as int, None, c, Piece::King, 64);
            lemma_occ_update(u1, to.0 as int, sq[from.0 as int], c, Piece::King, 64);
        },
        Move::DoublePush { from, to } => {
            let u1 = sq.update(from.0 as int, None);
            lemma_occ_update(sq, from.0 as int, None, c, Piece::King, 64);
            lemma_occ_update(u1, to.0 as int, sq[from.0 as int], c, Piece::King, 64);
        },
        Move::Capture { from, to, .. } => {
            let u1 = sq.update(to.0 as int, None);
            let u2 = u1.update(from.0 as int, None);
            lemma_occ_update(sq, to.0 as int, None, c, Piece::King, 64);
            lemma_occ_update(u1, from.0 as int, None, c, Piece::King, 64);
            lemma_occ_update(u2, to.0 as int, sq[from.0 as int], c, Piece::King, 64);
        },
        Move::Promote { from, to, promote } => {
            let u1 = sq.update(from.0 as int, None);
            lemma_occ_update(sq, from.0 as int, None, c, Piece::King, 64);
            lemma_occ_update(u1, to.0 as int, Some((side, promote)), c, Piece::King, 64);
        },
        Move::PromoteCapture { from, to, promote, .. } => {
            let u1 = sq.update(to.0 as int, None);
            let u2 = u1.update(from.0 as int, None);
            lemma_occ_update(sq, to.0 as int, None, c, Piece::King, 64);
            lemma_occ_update(u1, from.0 as int, None, c, Piece::King, 64);
            lemma_occ_update(u2, to.0 as int, Some((side, promote)), c, Piece::King, 64);
        },
        Move::EnPassant { from, to } => {
            let victim = ep_victim_sq(side, to.0 as int);
            let u1 = sq.update(victim, None);
            let u2 = u1.update(from.0 as int, None);
            lemma_occ_update(sq, victim, None, c, Piece::King, 64);
            lemma_occ_update(u1, from.0 as int, None, c, Piece::King, 64);
            lemma_occ_update(u2, to.0 as int, Some((side, Piece::Pawn)), c, Piece::King, 64);
        },
        Move::KingCastle | Move::QueenCastle => {
            let e: int = if side is White {
                4
            } else {
                60
            };
            let h: int = if m is KingCastle {
                if side is White {
                    7
                } else {
                    63
                }
            } else {
                if side is White {
                    0
                } else {
                    56
                }
            };
            let g: int = if m is KingCastle {
                if side is White {
                    6
                } else {
                    62
                }
            } else {
                if side is White {
                    2
                } else {
                    58
                }
            };
            let f: int = if m is KingCastle {
                if side is White {
                    5
                } else {
                    61
                }
            } else {
                if side is White {
                    3
                } else {
                    59
                }
            };
            let u1 = sq.update(e, None);
            let u2 = u1.update(h, None);
            let u3 = u2.update(g, Some((side, Piece::King)));
            lemma_occ_update(sq, e, None, c, Piece::King, 64);
            lemma_occ_update(u1, h, None, c, Piece::King, 64);
            lemma_occ_update(u2, g, Some((side, Piece::King)), c, Piece::King, 64);
            lemma_occ_update(u3, f, Some((side, Piece::Rook)), c, Piece::King, 64);
        },
        Move::Null => {},
    }
}

/// Collapsing a two-term exclusive-or chain.
pub proof fn lemma_collapse2(z: u64, a: u64, b: u64)
    ensures
        (z ^ a) ^ b == z ^ (a ^ b),
{
    lemma_xor_assoc(z, a, b);
}

/// Collapsing a three-term exclusive-or chain.
pub proof fn lemma_collapse3(z: u64, a: u64, b: u64, c: u64)
    ensures
        ((z ^ a) ^ b) ^ c == z ^ ((a ^ b) ^ c),
{
    lemma_xor_assoc(z, a, b);
    lemma_xor_assoc(z, a ^ b, c);
}

/// Collapsing a four-term exclusive-or chain.
pub proof fn lemma_collapse4(z: u64, a: u64, b: u64, c: u64, d: u64)
    ensures
        (((z ^ a) ^ b) ^ c) ^ d == z ^ (((a ^ b) ^ c) ^ d),
{
    lemma_collapse3(z, a, b, c);
    lemma_xor_assoc(z, (a ^ b) ^ c, d);
}

/// The incremental meta update matches the from-scratch key: the
/// old castling and en-passant contributions cancel, the side key
/// toggles, and the piece delta carries over.
pub proof fn lemma_zob_meta(
    zs0: u64,
    zsn: u64,
    z0: u64,
    zn: u64,
    s0: u64,
    s2: u64,
    sk: u64,
    ck0: u64,
    ck2: u64,
    ek0: u64,
    ek2: u64,
    d: u64,
)
    by (bit_vector)
    requires
        zn == z0 ^ d,
        zsn == zs0 ^ d,
        z0 == ((zs0 ^ s0) ^ ck0) ^ ek0,
        s2 == s0 ^ sk,
    ensures
        ((((zn ^ sk) ^ ck0) ^ ck2) ^ ek0) ^ ek2 == ((zsn ^ s2) ^ ck2) ^ ek2,
{
}

/// The square-key fold after removing one piece and placing one.
proof fn lemma_zob_two(sq: Squares, s1: int, s2: int, v2: Option<(Color, Piece)>)
    requires
        sq.len() == 64,
        0 <= s1 < 64,
        0 <= s2 < 64,
        s1 != s2,
        sq[s2] is None,
    ensures
        zob_squares(sq.update(s1, None).update(s2, v2), 64) == (zob_squares(sq, 64) ^ sq_key(
            s1,
            sq[s1],
        )) ^ sq_key(s2, v2),
{
    let u1 = sq.update(s1, None::<(Color, Piece)>);
    lemma_zob_update(sq, s1, None, 64);
    lemma_xor_zero(sq_key(s1, sq[s1]));
    lemma_zob_update(u1, s2, v2, 64);
    lemma_xor_zero(sq_key(s2, v2));
    lemma_xor_comm(0u64, sq_key(s2, v2));
}

/// The square-key fold after removing two pieces and placing one.
proof fn lemma_zob_three(sq: Squares, s1: int, s2: int, s3: int, v3: Option<(Color, Piece)>)
    requires
        sq.len() == 64,
        0 <= s1 < 64,
        0 <= s2 < 64,
        0 <= s3 < 64,
        s1 != s2,
        sq.update(s1, None::<(Color, Piece)>).update(s2, None::<(Color, Piece)>)[s3] is None,
    ensures
        zob_squares(
            sq.update(s1, None).update(s2, None).update(s3, v3),
            64,
        ) == ((zob_squares(sq, 64) ^ sq_key(s1, sq[s1])) ^ sq_key(s2, sq[s2])) ^ sq_key(s3, v3),
{
    let u1 = sq.update(s1, None::<(Color, Piece)>);
    let u2 = u1.update(s2, None::<(Color, Piece)>);
    lemma_zob_update(sq, s1, None, 64);
    lemma_xor_zero(sq_key(s1, sq[s1]));
    lemma_zob_update(u1, s2, None, 64);
    lemma_xor_zero(sq_key(s2, sq[s2]));
    lemma_zob_update(u2, s3, v3, 64);
    lemma_xor_zero(sq_key(s3, v3));
    lemma_xor_comm(0u64, sq_key(s3, v3));
}

/// The square-key fold after a castle: king and rook leave, king
/// and rook arrive.
proof fn lemma_zob_four(
    sq: Squares,
    s1: int,
    s2: int,
    s3: int,
    v3: Option<(Color, Piece)>,
    s4: int,
    v4: Option<(Color, Piece)>,
)
    requires
        sq.len() == 64,
        0 <= s1 < 64,
        0 <= s2 < 64,
        0 <= s3 < 64,
        0 <= s4 < 64,
        s1 != s2,
        s3 != s1 && s3 != s2,
        s4 != s1 && s4 != s2 && s4 != s3,
        sq[s3] is None,
        sq[s4] is None,
    ensures
        zob_squares(
            sq.update(s1, None).update(s2, None).update(s3, v3).update(s4, v4),
            64,
        ) == (((zob_squares(sq, 64) ^ sq_key(s1, sq[s1])) ^ sq_key(s2, sq[s2])) ^ sq_key(s3, v3))
            ^ sq_key(s4, v4),
{
    let u1 = sq.update(s1, None::<(Color, Piece)>);
    let u2 = u1.update(s2, None::<(Color, Piece)>);
    let u3 = u2.update(s3, v3);
    lemma_zob_update(sq, s1, None, 64);
    lemma_xor_zero(sq_key(s1, sq[s1]));
    lemma_zob_update(u1, s2, None, 64);
    lemma_xor_zero(sq_key(s2, sq[s2]));
    lemma_zob_update(u2, s3, v3, 64);
    lemma_xor_zero(sq_key(s3, v3));
    lemma_xor_comm(0u64, sq_key(s3, v3));
    lemma_zob_update(u3, s4, v4, 64);
    lemma_xor_zero(sq_key(s4, v4));
    lemma_xor_comm(0u64, sq_key(s4, v4));
}

/// The side-key contributions of the two sides differ by the side
/// key itself.
proof fn lemma_side_toggle(us: Color)
    ensures
        side_key_of(us.spec_invert()) == side_key_of(us) ^ spec_key_at(SIDE_KEY as nat),
{
    let k = spec_key_at(SIDE_KEY as nat);
    match us {
        Color::White => {
            lemma_xor_zero(k);
            lemma_xor_comm(k, 0u64);
        },
        Color::Black => {
            lemma_xor_cancel(k, k);
        },
    }
}

/// Updates the castling-rights mask for a move between two squares.
fn castle_update(castle: u8, from: u8, to: u8) -> (r: u8)
    requires
        castle < 16,
    ensures
        r as int == spec_castle_after(castle as int, from as int, to as int),
        r < 16,
{
    let wk: bool = (castle / 1) % 2 == 1 && from != 4 && from != 7 && to != 4 && to != 7;
    let wq: bool = (castle / 2) % 2 == 1 && from != 4 && from != 0 && to != 4 && to != 0;
    let bk: bool = (castle / 4) % 2 == 1 && from != 60 && from != 63 && to != 60 && to != 63;
    let bq: bool = (castle / 8) % 2 == 1 && from != 60 && from != 56 && to != 60 && to != 56;
    (if wk {
        1u8
    } else {
        0u8
    }) + (if wq {
        2u8
    } else {
        0u8
    }) + (if bk {
        4u8
    } else {
        0u8
    }) + (if bq {
        8u8
    } else {
        0u8
    })
}

impl Board {
    /// Mutates the board in place, applying the move for the side
    /// to move: pieces, occupancy, mailbox, side, castling rights,
    /// en passant, clocks and Zobrist key move in lock step, the
    /// checkers are recomputed for the new side to move, and an
    /// undo record is pushed onto the history.
    #[verifier::rlimit(100)]
    pub fn do_move(&mut self, m: Move)
        requires
            old(self).wf(),
            spec_move_ok(old(self)@, m),
        ensures
            final(self).wf(),
            final(self)@ == spec_do(old(self)@, m),
            final(self).history@ == old(self).history@.push(
                HistRec {
                    zobrist: old(self).zobrist,
                    halfmove: old(self).halfmove,
                    castle: old(self).castle,
                    ep: old(self).ep,
                    fullmove: old(self).fullmove,
                    checkers: old(self).checkers,
                },
            ),
            final(self).keys == old(self).keys,
            final(self).zobrist == spec_zobrist(spec_do(old(self)@, m)),
    {
        let ghost p0 = self@;
        let ghost z0 = self.zobrist;
        let ghost zs0 = zob_squares(p0.squares, 64);
        let us = self.side;
        let them = us.invert();
        self.history.push(
            HistRec {
                zobrist: self.zobrist,
                halfmove: self.halfmove,
                castle: self.castle,
                ep: self.ep,
                fullmove: self.fullmove,
                checkers: self.checkers,
            },
        );
        // Whether a pawn moves, read before the pieces change.
        let pawn_mv: bool = match m {
            Move::DoublePush { .. } | Move::EnPassant { .. } | Move::Promote { .. }
                | Move::PromoteCapture { .. } => true,
            Move::Quiet { from, .. } | Move::Capture { from, .. } => match self.piece_at(from) {
                Some((_, p)) => matches!(p, Piece::Pawn),
                None => false,
            },
            _ => false,
        };
        let dir: i16 = match us {
            Color::White => 1,
            Color::Black => -1,
        };
        match m {
            Move::Quiet { from, to } | Move::DoublePush { from, to } => {
                let pc = match self.piece_at(from) {
                    Some((_, p)) => p,
                    None => Piece::Pawn,
                };
                self.remove_piece(us, pc, from);
                self.put_piece(us, pc, to);
                proof {
                    lemma_zob_two(p0.squares, from.0 as int, to.0 as int, Some((us, pc)));
                    lemma_collapse2(
                        zs0,
                        sq_key(from.0 as int, p0.squares[from.0 as int]),
                        sq_key(to.0 as int, Some((us, pc))),
                    );
                    lemma_collapse2(
                        z0,
                        sq_key(from.0 as int, p0.squares[from.0 as int]),
                        sq_key(to.0 as int, Some((us, pc))),
                    );
                }
            },
            Move::Capture { from, to, capture } => {
                let pc = match self.piece_at(from) {
                    Some((_, p)) => p,
                    None => Piece::Pawn,
                };
                self.remove_piece(them, capture, to);
                self.remove_piece(us, pc, from);
                self.put_piece(us, pc, to);
                proof {
                    lemma_zob_three(
                        p0.squares,
                        to.0 as int,
                        from.0 as int,
                        to.0 as int,
                        Some((us, pc)),
                    );
                    lemma_collapse3(
                        zs0,
                        sq_key(to.0 as int, p0.squares[to.0 as int]),
                        sq_key(from.0 as int, p0.squares[from.0 as int]),
                        sq_key(to.0 as int, Some((us, pc))),
                    );
                    lemma_collapse3(
                        z0,
                        sq_key(to.0 as int, p0.squares[to.0 as int]),
                        sq_key(from.0 as int, p0.squares[from.0 as int]),
                        sq_key(to.0 as int, Some((us, pc))),
                    );
                }
            },
            Move::Promote { from, to, promote } => {
                self.remove_piece(us, Piece::Pawn, from);
                self.put_piece(us, promote, to);
                proof {
                    lemma_zob_two(p0.squares, from.0 as int, to.0 as int, Some((us, promote)));
                    lemma_collapse2(
                        zs0,
                        sq_key(from.0 as int, p0.squares[from.0 as int]),
                        sq_key(to.0 as int, Some((us, promote))),
                    );
                    lemma_collapse2(
                        z0,
                        sq_key(from.0 as int, p0.squares[from.0 as int]),
                        sq_key(to.0 as int, Some((us, promote))),
                    );
                }
            },
            Move::PromoteCapture { from, to, capture, promote } => {
                self.remove_piece(them, capture, to);
                self.remove_piece(us, Piece::Pawn, from);
                self.put_piece(us, promote, to);
                proof {
                    lemma_zob_three(
                        p0.squares,
                        to.0 as int,
                        from.0 as int,
                        to.0 as int,
                        Some((us, promote)),
                    );
                    lemma_collapse3(
                        zs0,
                        sq_key(to.0 as int, p0.squares[to.0 as int]),
                        sq_key(from.0 as int, p0.squares[from.0 as int]),
                        sq_key(to.0 as int, Some((us, promote))),
                    );
                    lemma_collapse3(
                        z0,
                        sq_key(to.0 as int, p0.squares[to.0 as int]),
                        sq_key(from.0 as int, p0.squares[from.0 as int]),
                        sq_key(to.0 as int, Some((us, promote))),
                    );
                }
            },
            Move::EnPassant { from, to } => {
                let victim = Square((to.0 as i16 - 8 * dir) as u8);
                self.remove_piece(them, Piece::Pawn, victim);
                self.remove_piece(us, Piece::Pawn, from);
                self.put_piece(us, Piece::Pawn, to);
                proof {
                    lemma_zob_three(
                        p0.squares,
                        victim.0 as int,
                        from.0 as int,
                        to.0 as int,
                        Some((us, Piece::Pawn)),
                    );
                    lemma_collapse3(
                        zs0,
                        sq_key(victim.0 as int, p0.squares[victim.0 as int]),
                        sq_key(from.0 as int, p0.squares[from.0 as int]),
                        sq_key(to.0 as int, Some((us, Piece::Pawn))),
                    );
                    lemma_collapse3(
                        z0,
                        sq_key(victim.0 as int, p0.squares[victim.0 as int]),
                        sq_key(from.0 as int, p0.squares[from.0 as int]),
                        sq_key(to.0 as int, Some((us, Piece::Pawn))),
                    );
                }
            },
            Move::KingCastle | Move::QueenCastle => {
                let king_side = matches!(m, Move::KingCastle);
                let e: Square = match us {
                    Color::White => Square(4),
                    Color::Black => Square(60),
                };
                let h: Square = if king_side {
                    match us {
                        Color::White => Square(7),
                        Color::Black => Square(63),
                    }
                } else {
                    match us {
                        Color::White => Square(0),
                        Color::Black => Square(56),
                    }
                };
                let g: Square = if king_side {
                    match us {
                        Color::White => Square(6),
                        Color::Black => Square(62),
                    }
                } else {
                    match us {
                        Color::White => Square(2),
                        Color::Black => Square(58),
                    }
                };
                let f: Square = if king_side {
                    match us {
                        Color::White => Square(5),
                        Color::Black => Square(61),
                    }
                } else {
                    match us {
                        Color::White => Square(3),
                        Color::Black => Square(59),
                    }
                };
                self.remove_piece(us, Piece::King, e);
                self.remove_piece(us, Piece::Rook, h);
                self.put_piece(us, Piece::King, g);
                self.put_piece(us, Piece::Rook, f);
                proof {
                    lemma_zob_four(
                        p0.squares,
                        e.0 as int,
                        h.0 as int,
                        g.0 as int,
                        Some((us, Piece::King)),
                        f.0 as int,
                        Some((us, Piece::Rook)),
                    );
                    lemma_collapse4(
                        zs0,
                        sq_key(e.0 as int, p0.squares[e.0 as int]),
                        sq_key(h.0 as int, p0.squares[h.0 as int]),
                        sq_key(g.0 as int, Some((us, Piece::King))),
                        sq_key(f.0 as int, Some((us, Piece::Rook))),
                    );
                    lemma_collapse4(
                        z0,
                        sq_key(e.0 as int, p0.squares[e.0 as int]),
                        sq_key(h.0 as int, p0.squares[h.0 as int]),
                        sq_key(g.0 as int, Some((us, Piece::King))),
                        sq_key(f.0 as int, Some((us, Piece::Rook))),
                    );
                }
            },
            Move::Null => {
                proof {
                    assert(false);
                }
            },
        }
        let ghost sq2 = spec_squares_do(p0.squares, us, m);
        let ghost zsn = zob_squares(sq2, 64);
        let ghost dpiece = (zsn ^ zs0) ^ zs0;
        proof {
            assert(self@.squares =~= sq2);
            assert(exists|d: u64| self.zobrist == z0 ^ d && zsn == zs0 ^ d) by {
                lemma_xor_cancel(zs0, zsn ^ zs0);
                lemma_xor_comm(zs0, zsn ^ zs0);
            }
        }
        // Meta updates.
        let from_sq = m.from(us);
        let to_sq = m.to(us);
        let new_castle = castle_update(self.castle, from_sq.0, to_sq.0);
        let new_ep: Option<Square> = match m {
            Move::DoublePush { from, .. } => Some(Square((from.0 as i16 + 8 * dir) as u8)),
            _ => None,
        };
        let sk = self.keys.side_key();
        let ck0 = self.keys.castle_key(self.castle);
        let ck2 = self.keys.castle_key(new_castle);
        let ek0: u64 = match self.ep {
            Some(e) => self.keys.ep_key(e.file()),
            None => 0u64,
        };
        let ek2: u64 = match new_ep {
            Some(e) => self.keys.ep_key(e.file()),
            None => 0u64,
        };
        proof {
            let d = choose|d: u64| self.zobrist == z0 ^ d && zsn == zs0 ^ d;
            lemma_side_toggle(us);
            lemma_zob_meta(
                zs0,
                zsn,
                z0,
                self.zobrist,
                side_key_of(us),
                side_key_of(them),
                sk,
                ck0,
                ck2,
                ek0,
                ek2,
                d,
            );
        }
        self.zobrist = ((((self.zobrist ^ sk) ^ ck0) ^ ck2) ^ ek0) ^ ek2;
        self.castle = new_castle;
        self.ep = new_ep;
        self.halfmove = if pawn_mv || m.is_capture() {
            0
        } else if self.halfmove < u16::MAX {
            self.halfmove + 1
        } else {
            self.halfmove
        };
        match us {
            Color::Black => {
                if self.fullmove < u16::MAX {
                    self.fullmove = self.fullmove + 1;
                }
            },
            Color::White => {},
        }
        self.side = them;
        proof {
            lemma_kings_preserved(p0, m, Color::White);
            lemma_kings_preserved(p0, m, Color::Black);
        }
        // Recompute the checkers for the new side to move.
        let ksq = self.get_king_sq(them);
        let checkers_word = self.attackers_to(ksq, us);
        self.checkers = checkers_word.0;
        proof {
            let p2 = spec_do(p0, m);
            assert(final(self)@ =~= p2);
            assert forall|s: u64, t: u64|
                s < 64 && t < 64 && final(self)@.squares[t as int] == Some(
                    (them, Piece::King),
                ) implies (#[trigger] bb_get(final(self).checkers, s) <==> #[trigger] attacker_at(
                final(self)@.squares,
                them.spec_invert(),
                s as int,
                t as int,
            )) by {
                lemma_king_unique(final(self)@.squares, them, t as int, ksq.0 as int);
                assert(t as int == ksq.0 as int);
                assert(them.spec_invert() == us);
                assert(bb_get(final(self).checkers, s) == checkers_word.spec_has(s));
                assert(checkers_word.spec_has(s) <==> attacker_at(
                    final(self)@.squares,
                    us,
                    s as int,
                    ksq.0 as int,
                ));
            }
        }
    }
}

/// The piece placement after taking a move of `side2` back. The
/// updates mirror the reversing removals and placements in order.
pub open spec fn spec_squares_undo(sq: Squares, side2: Color, m: Move) -> Squares {
    let them2 = side2.spec_invert();
    match m {
        Move::Quiet { from, to } => sq.update(to.0 as int, None).update(
            from.0 as int,
            sq[to.0 as int],
        ),
        Move::DoublePush { from, to } => sq.update(to.0 as int, None).update(
            from.0 as int,
            sq[to.0 as int],
        ),
        Move::Capture { from, to, capture } => sq.update(to.0 as int, None).update(
            from.0 as int,
            sq[to.0 as int],
        ).update(to.0 as int, Some((them2, capture))),
        Move::Promote { from, to, .. } => sq.update(to.0 as int, None).update(
            from.0 as int,
            Some((side2, Piece::Pawn)),
        ),
        Move::PromoteCapture { from, to, capture, .. } => sq.update(to.0 as int, None).update(
            from.0 as int,
            Some((side2, Piece::Pawn)),
        ).update(to.0 as int, Some((them2, capture))),
        Move::EnPassant { from, to } => sq.update(to.0 as int, None).update(
            from.0 as int,
            Some((side2, Piece::Pawn)),
        ).update(ep_victim_sq(side2, to.0 as int), Some((them2, Piece::Pawn))),
        Move::KingCastle => match side2 {
            Color::White => sq.update(6, None).update(5, None).update(
                4,
                Some((side2, Piece::King)),
            ).update(7, Some((side2, Piece::Rook))),
            Color::Black => sq.update(62, None).update(61, None).update(
                60,
                Some((side2, Piece::King)),
            ).update(63, Some((side2, Piece::Rook))),
        },
        Move::QueenCastle => match side2 {
            Color::White => sq.update(2, None).update(3, None).update(
                4,
                Some((side2, Piece::King)),
            ).update(0, Some((side2, Piece::Rook))),
            Color::Black => sq.update(58, None).update(59, None).update(
                60,
                Some((side2, Piece::King)),
            ).update(56, Some((side2, Piece::Rook))),
        },
        Move::Null => sq,
    }
}

/// The structural conditions under which a move of the previous
/// side can be taken back: the board looks like the move was just
/// made.
pub open spec fn spec_unmove_ok(p: Position, m: Move) -> bool {
    let side2 = p.side.spec_invert();
    match m {
        Move::Quiet { from, to } => {
            &&& from.wf()
            &&& to.wf()
            &&& from != to
            &&& match p.squares[to.0 as int] {
                Some((c, _)) => c == side2,
                None => false,
            }
            &&& p.squares[from.0 as int] is None
        },
        Move::DoublePush { from, to } => {
            &&& from.wf()
            &&& to.wf()
            &&& from != to
            &&& p.squares[to.0 as int] == Some((side2, Piece::Pawn))
            &&& p.squares[from.0 as int] is None
        },
        Move::Capture { from, to, capture } => {
            &&& from.wf()
            &&& to.wf()
            &&& from != to
            &&& match p.squares[to.0 as int] {
                Some((c, _)) => c == side2,
                None => false,
            }
            &&& p.squares[from.0 as int] is None
            &&& capture != Piece::King
        },
        Move::Promote { from, to, promote } => {
            &&& from.wf()
            &&& to.wf()
            &&& from != to
            &&& p.squares[to.0 as int] == Some((side2, promote))
            &&& p.squares[from.0 as int] is None
            &&& promote != Piece::King
        },
        Move::PromoteCapture { from, to, capture, promote } => {
            &&& from.wf()
            &&& to.wf()
            &&& from != to
            &&& p.squares[to.0 as int] == Some((side2, promote))
            &&& p.squares[from.0 as int] is None
            &&& promote != Piece::King
            &&& capture != Piece::King
        },
        Move::EnPassant { from, to } => {
            let victim = ep_victim_sq(side2, to.0 as int);
            &&& from.wf()
            &&& to.wf()
            &&& from != to
            &&& p.squares[to.0 as int] == Some((side2, Piece::Pawn))
            &&& p.squares[from.0 as int] is None
            &&& on_board(victim)
            &&& victim != from.0 as int
            &&& victim != to.0 as int
            &&& p.squares[victim] is None
        },
        Move::KingCastle => match side2 {
            Color::White => {
                &&& p.squares[6] == Some((side2, Piece::King))
                &&& p.squares[5] == Some((side2, Piece::Rook))
                &&& p.squares[4] is None
                &&& p.squares[7] is None
            },
            Color::Black => {
                &&& p.squares[62] == Some((side2, Piece::King))
                &&& p.squares[61] == Some((side2, Piece::Rook))
                &&& p.squares[60] is None
                &&& p.squares[63] is None
            },
        },
        Move::QueenCastle => match side2 {
            Color::White => {
                &&& p.squares[2] == Some((side2, Piece::King))
                &&& p.squares[3] == Some((side2, Piece::Rook))
                &&& p.squares[4] is None
                &&& p.squares[0] is None
            },
            Color::Black => {
                &&& p.squares[58] == Some((side2, Piece::King))
                &&& p.squares[59] == Some((side2, Piece::Rook))
                &&& p.squares[60] is None
                &&& p.squares[56] is None
            },
        },
        Move::Null => false,
    }
}

/// The position after taking the last move back, restoring the
/// saved meta state from the history record.
pub open spec fn spec_undo(p: Position, m: Move, rec: HistRec) -> Position {
    let side2 = p.side.spec_invert();
    Position {
        squares: spec_squares_undo(p.squares, side2, m),
        side: side2,
        castle: rec.castle as int,
        ep: match rec.ep {
            Some(e) => Some(e.0 as int),
            None => None,
        },
        halfmove: rec.halfmove as int,
        fullmove: rec.fullmove as int,
    }
}

/// Taking a move back preserves the king counts.
pub proof fn lemma_kings_preserved_undo(p: Position, m: Move, c: Color)
    requires
        pos_ok(p),
        spec_unmove_ok(p, m),
    ensures
        occ_count(
            spec_squares_undo(p.squares, p.side.spec_invert(), m),
            c,
            Piece::King,
            64,
        ) == occ_count(p.squares, c, Piece::King, 64),
{
    let sq = p.squares;
    let side2 = p.side.spec_invert();
    let them2 = side2.spec_invert();
    match m {
        Move::Quiet { from, to } => {
            let u1 = sq.update(to.0 as int, None);
            lemma_occ_update(sq, to.0 as int, None, c, Piece::King, 64);
            lemma_occ_update(u1, from.0 as int, sq[to.0 as int], c, Piece::King, 64);
        },
        Move::DoublePush { from, to } => {
            let u1 = sq.update(to.0 as int, None);
            lemma_occ_update(sq, to.0 as int, None, c, Piece::King, 64);
            lemma_occ_update(u1, from.0 as int, sq[to.0 as int], c, Piece::King, 64);
        },
        Move::Capture { from, to, capture } => {
            let u1 = sq.update(to.0 as int, None);
            let u2 = u1.update(from.0 as int, sq[to.0 as int]);
            lemma_occ_update(sq, to.0 as int, None, c, Piece::King, 64);
            lemma_occ_update(u1, from.0 as int, sq[to.0 as int], c, Piece::King, 64);
            lemma_occ_update(u2, to.0 as int, Some((them2, capture)), c, Piece::King, 64);
        },
        Move::Promote { from, to, .. } => {
            let u1 = sq.update(to.0 as int, None);
            lemma_occ_update(sq, to.0 as int, None, c, Piece::King, 64);
            lemma_occ_update(u1, from.0 as int, Some((side2, Piece::Pawn)), c, Piece::King, 64);
        },
        Move::PromoteCapture { from, to, capture, .. } => {
            let u1 = sq.update(to.0 as int, None);
            let u2 = u1.update(from.0 as int, Some((side2, Piece::Pawn)));
            lemma_occ_update(sq, to.0 as int, None, c, Piece::King, 64);
            lemma_occ_update(u1, from.0 as int, Some((side2, Piece::Pawn)), c, Piece::King, 64);
            lemma_occ_update(u2, to.0 as int, Some((them2, capture)), c, Piece::King, 64);
        },
        Move::EnPassant { from, to } => {
            let victim = ep_victim_sq(side2, to.0 as int);
            let u1 = sq.update(to.0 as int, None);
            let u2 = u1.update(from.0 as int, Some((side2, Piece::Pawn)));
            lemma_occ_update(sq, to.0 as int, None, c, Piece::King, 64);
            lemma_occ_update(u1, from.0 as int, Some((side2, Piece::Pawn)), c, Piece::King, 64);
            lemma_occ_update(u2, victim, Some((them2, Piece::Pawn)), c, Piece::King, 64);
        },
        Move::KingCastle | Move::QueenCastle => {
            let king_side = m is KingCastle;
            let e: int = if side2 is White {
                4
            } else {
                60
            };
            let h: int = if king_side {
                if side2 is White {
                    7
                } else {
                    63
                }
            } else {
                if side2 is White {
                    0
                } else {
                    56
                }
            };
            let g: int = if king_side {
                if side2 is White {
                    6
                } else {
                    62
                }
            } else {
                if side2 is White {
                    2
                } else {
                    58
                }
            };
            let f: int = if king_side {
                if side2 is White {
                    5
                } else {
                    61
                }
            } else {
                if side2 is White {
                    3
                } else {
                    59
                }
            };
            let u1 = sq.update(g, None);
            let u2 = u1.update(f, None);
            let u3 = u2.update(e, Some((side2, Piece::King)));
            lemma_occ_update(sq, g, None, c, Piece::King, 64);
            lemma_occ_update(u1, f, None, c, Piece::King, 64);
            lemma_occ_update(u2, e, Some((side2, Piece::King)), c, Piece::King, 64);
            lemma_occ_update(u3, h, Some((side2, Piece::Rook)), c, Piece::King, 64);
        },
        Move::Null => {},
    }
}

/// Undo exactness: for every structurally applicable move, undoing
/// right after doing restores every field of the position.
pub proof fn lemma_undo_exact(p: Position, m: Move, rec: HistRec)
    requires
        pos_ok(p),
        spec_move_ok(p, m),
        rec.castle as int == p.castle,
        (match rec.ep {
            Some(e) => Some(e.0 as int),
            None => None::<int>,
        }) == p.ep,
        rec.halfmove as int == p.halfmove,
        rec.fullmove as int == p.fullmove,
    ensures
        spec_undo(spec_do(p, m), m, rec) == p,
{
    let p2 = spec_do(p, m);
    assert(p2.side.spec_invert() == p.side);
    assert(spec_squares_undo(p2.squares, p.side, m) =~= p.squares);
    assert(spec_undo(p2, m, rec) =~= p);
}

/// After a structurally applicable move, the move can be taken
/// back.
pub proof fn lemma_do_gives_unmove_ok(p: Position, m: Move)
    requires
        pos_ok(p),
        spec_move_ok(p, m),
    ensures
        spec_unmove_ok(spec_do(p, m), m),
{
}

impl Board {
    /// The top history record can take `m` back: the board looks
    /// like the move was just made, and the record restores a state
    /// whose Zobrist key and checkers are the recomputed ones.
    pub open spec fn spec_undoable(self, m: Move) -> bool {
        let rec = self.history@.last();
        let p1 = spec_undo(self@, m, rec);
        &&& self.history@.len() > 0
        &&& spec_unmove_ok(self@, m)
        &&& rec.castle < 16
        &&& match rec.ep {
            Some(e) => e.wf() && sq_rank(e.0 as int) == ep_rank_of(p1.side),
            None => true,
        }
        &&& 1 <= rec.fullmove
        &&& rec.zobrist == spec_zobrist(p1)
        &&& checkers_ok(p1.squares, p1.side, rec.checkers)
    }

    /// Pops the last history record and restores every field
    /// exactly: do_move followed by undo_move is a no-op on the
    /// position.
    #[verifier::rlimit(60)]
    pub fn undo_move(&mut self, m: Move)
        requires
            old(self).wf(),
            old(self).spec_undoable(m),
        ensures
            final(self).wf(),
            final(self)@ == spec_undo(old(self)@, m, old(self).history@.last()),
            final(self).history@ == old(self).history@.drop_last(),
            final(self).keys == old(self).keys,
            final(self).zobrist == old(self).history@.last().zobrist,
            final(self).checkers == old(self).history@.last().checkers,
    {
        let ghost p0 = self@;
        let ghost rec0 = self.history@.last();
        let rec = match self.history.pop() {
            Some(r) => r,
            None => HistRec {
                zobrist: 0,
                halfmove: 0,
                castle: 0,
                ep: None,
                fullmove: 1,
                checkers: 0,
            },
        };
        let side2 = self.side.invert();
        let them2 = self.side;
        let dir2: i16 = match side2 {
            Color::White => 1,
            Color::Black => -1,
        };
        match m {
            Move::Quiet { from, to } | Move::DoublePush { from, to } => {
                let pc = match self.piece_at(to) {
                    Some((_, p)) => p,
                    None => Piece::Pawn,
                };
                self.remove_piece(side2, pc, to);
                self.put_piece(side2, pc, from);
            },
            Move::Capture { from, to, capture } => {
                let pc = match self.piece_at(to) {
                    Some((_, p)) => p,
                    None => Piece::Pawn,
                };
                self.remove_piece(side2, pc, to);
                self.put_piece(side2, pc, from);
                self.put_piece(them2, capture, to);
            },
            Move::Promote { from, to, promote } => {
                self.remove_piece(side2, promote, to);
                self.put_piece(side2, Piece::Pawn, from);
            },
            Move::PromoteCapture { from, to, capture, promote } => {
                self.remove_piece(side2, promote, to);
                self.put_piece(side2, Piece::Pawn, from);
                self.put_piece(them2, capture, to);
            },
            Move::EnPassant { from, to } => {
                let victim = Square((to.0 as i16 - 8 * dir2) as u8);
                self.remove_piece(side2, Piece::Pawn, to);
                self.put_piece(side2, Piece::Pawn, from);
                self.put_piece(them2, Piece::Pawn, victim);
            },
            Move::KingCastle | Move::QueenCastle => {
                let king_side = matches!(m, Move::KingCastle);
                let e: Square = match side2 {
                    Color::White => Square(4),
                    Color::Black => Square(60),
                };
                let h: Square = if king_side {
                    match side2 {
                        Color::White => Square(7),
                        Color::Black => Square(63),
                    }
                } else {
                    match side2 {
                        Color::White => Square(0),
                        Color::Black => Square(56),
                    }
                };
                let g: Square = if king_side {
                    match side2 {
                        Color::White => Square(6),
                        Color::Black => Square(62),
                    }
                } else {
                    match side2 {
                        Color::White => Square(2),
                        Color::Black => Square(58),
                    }
                };
                let f: Square = if king_side {
                    match side2 {
                        Color::White => Square(5),
                        Color::Black => Square(61),
                    }
                } else {
                    match side2 {
                        Color::White => Square(3),
                        Color::Black => Square(59),
                    }
                };
                self.remove_piece(side2, Piece::King, g);
                self.remove_piece(side2, Piece::Rook, f);
                self.put_piece(side2, Piece::King, e);
                self.put_piece(side2, Piece::Rook, h);
            },
            Move::Null => {
                proof {
                    assert(false);
                }
            },
        }
        self.side = side2;
        self.castle = rec.castle;
        self.ep = rec.ep;
        self.halfmove = rec.halfmove;
        self.fullmove = rec.fullmove;
        self.zobrist = rec.zobrist;
        self.checkers = rec.checkers;
        proof {
            let p1 = spec_undo(p0, m, rec0);
            assert(final(self)@.squares =~= spec_squares_undo(p0.squares, side2, m));
            assert(final(self)@ =~= p1);
            lemma_kings_preserved_undo(p0, m, Color::White);
            lemma_kings_preserved_undo(p0, m, Color::Black);
        }
    }
}

/// After do_move, the move it made can be taken back, and taking it
/// back restores the old position.
pub proof fn lemma_do_then_undoable(b0: Board, b1: Board, m: Move)
    requires
        b0.wf(),
        spec_move_ok(b0@, m),
        b1.wf(),
        b1@ == spec_do(b0@, m),
        b1.history@.len() > 0,
        b1.history@.last() == (HistRec {
            zobrist: b0.zobrist,
            halfmove: b0.halfmove,
            castle: b0.castle,
            ep: b0.ep,
            fullmove: b0.fullmove,
            checkers: b0.checkers,
        }),
    ensures
        b1.spec_undoable(m),
        spec_undo(b1@, m, b1.history@.last()) == b0@,
{
    let rec = b1.history@.last();
    lemma_undo_exact(b0@, m, rec);
    lemma_do_gives_unmove_ok(b0@, m);
}

/// The mover's king is not attacked once the move is made: the
/// exact meaning of legality for a structurally sound move.
pub open spec fn king_safe_after(p: Position, m: Move) -> bool {
    let p2 = spec_do(p, m);
    forall|t: int|
        on_board(t) && #[trigger] p2.squares[t] == Some((p.side, Piece::King)) ==> !attacked(
            p2.squares,
            p2.side,
            t,
        )
}

impl Board {
    /// Whether the side to move is in check.
    pub fn in_check(&self) -> (r: bool)
        ensures
            r == (self.checkers != 0u64),
    {
        self.checkers != 0
    }

    /// Cheap structural check that the move references the correct
    /// moving piece and an occupancy compatible with its claims;
    /// exactly the conditions under which the move can be applied.
    /// Used to validate transposition-table move hints.
    #[verifier::rlimit(100)]
    #[verifier::spinoff_prover]
    pub fn is_pseudo_legal(&self, m: Move) -> (r: bool)
        requires
            self.boards_ok(),
        ensures
            r == spec_move_ok(self@, m),
    {
        let side = self.side;
        let them = side.invert();
        match m {
            Move::Quiet { from, to } => from.0 < 64 && to.0 < 64 && from.0 != to.0 && (match self
                .piece_at(from) {
                Some((c, _)) => c == side,
                None => false,
            }) && self.piece_at(to).is_none(),
            Move::Capture { from, to, capture } => from.0 < 64 && to.0 < 64 && from.0 != to.0
                && !matches!(capture, Piece::King) && (match self.piece_at(from) {
                Some((c, _)) => c == side,
                None => false,
            }) && (match self.piece_at(to) {
                Some((c, p)) => c == them && p == capture,
                None => false,
            }),
            Move::Promote { from, to, promote } => from.0 < 64 && to.0 < 64 && from.0 != to.0
                && !matches!(promote, Piece::Pawn) && !matches!(promote, Piece::King) && (match self
                .piece_at(from) {
                Some((c, p)) => c == side && matches!(p, Piece::Pawn),
                None => false,
            }) && self.piece_at(to).is_none(),
            Move::PromoteCapture { from, to, capture, promote } => from.0 < 64 && to.0 < 64
                && from.0 != to.0 && !matches!(promote, Piece::Pawn) && !matches!(
                promote,
                Piece::King,
            ) && !matches!(capture, Piece::King) && (match self.piece_at(from) {
                Some((c, p)) => c == side && matches!(p, Piece::Pawn),
                None => false,
            }) && (match self.piece_at(to) {
                Some((c, p)) => c == them && p == capture,
                None => false,
            }),
            Move::EnPassant { from, to } => {
                let dir: i16 = match side {
                    Color::White => 1,
                    Color::Black => -1,
                };
                if from.0 < 64 && to.0 < 64 && (match self.ep {
                    Some(e) => e.0 == to.0,
                    None => false,
                }) {
                    let victim_i: i16 = to.0 as i16 - 8 * dir;
                    let fdiff: i16 = (to.0 % 8) as i16 - (from.0 % 8) as i16;
                    0 <= victim_i && victim_i < 64 && victim_i != from.0 as i16 && victim_i
                        != to.0 as i16 && (fdiff == 1 || fdiff == -1) && (to.0 / 8) as i16 - (from.0
                        / 8) as i16 == dir && (match self.piece_at(from) {
                        Some((c, p)) => c == side && matches!(p, Piece::Pawn),
                        None => false,
                    }) && self.piece_at(to).is_none() && (match self.piece_at(
                        Square(victim_i as u8),
                    ) {
                        Some((c, p)) => c == them && matches!(p, Piece::Pawn),
                        None => false,
                    })
                } else {
                    false
                }
            },
            Move::DoublePush { from, to } => {
                let dir: i16 = match side {
                    Color::White => 1,
                    Color::Black => -1,
                };
                if from.0 < 64 && to.0 < 64 {
                    let mid_i: i16 = from.0 as i16 + 8 * dir;
                    to.0 as i16 == from.0 as i16 + 16 * dir && 0 <= mid_i && mid_i < 64 && (from.0
                        / 8) == (match side {
                        Color::White => 1,
                        Color::Black => 6,
                    }) && (match self.piece_at(from) {
                        Some((c, p)) => c == side && matches!(p, Piece::Pawn),
                        None => false,
                    }) && self.piece_at(to).is_none() && self.piece_at(
                        Square(mid_i as u8),
                    ).is_none()
                } else {
                    false
                }
            },
            Move::KingCastle => {
                let (right, e, h, f, g): (u8, u8, u8, u8, u8) = match side {
                    Color::White => (1, 4, 7, 5, 6),
                    Color::Black => (4, 60, 63, 61, 62),
                };
                (self.castle / right) % 2 == 1 && (match self.piece_at(Square(e)) {
                    Some((c, p)) => c == side && matches!(p, Piece::King),
                    None => false,
                }) && (match self.piece_at(Square(h)) {
                    Some((c, p)) => c == side && matches!(p, Piece::Rook),
                    None => false,
                }) && self.piece_at(Square(f)).is_none() && self.piece_at(Square(g)).is_none()
            },
            Move::QueenCastle => {
                let (right, e, a, b, c2, d): (u8, u8, u8, u8, u8, u8) = match side {
                    Color::White => (2, 4, 0, 1, 2, 3),
                    Color::Black => (8, 60, 56, 57, 58, 59),
                };
                (self.castle / right) % 2 == 1 && (match self.piece_at(Square(e)) {
                    Some((c, p)) => c == side && matches!(p, Piece::King),
                    None => false,
                }) && (match self.piece_at(Square(a)) {
                    Some((c, p)) => c == side && matches!(p, Piece::Rook),
                    None => false,
                }) && self.piece_at(Square(b)).is_none() && self.piece_at(Square(c2)).is_none()
                    && self.piece_at(Square(d)).is_none()
            },
            Move::Null => false,
        }
    }

    /// Applies the move and rejects it when the mover's king would
    /// be in check; the board is restored exactly.
    pub fn is_legal(&mut self, m: Move) -> (r: bool)
        requires
            old(self).wf(),
            spec_move_ok(old(self)@, m),
        ensures
            r == king_safe_after(old(self)@, m),
            final(self).wf(),
            final(self)@ == old(self)@,
            final(self).history@ == old(self).history@,
            final(self).zobrist == old(self).zobrist,
            final(self).checkers == old(self).checkers,
            final(self).keys == old(self).keys,
    {
        let ghost b0 = *self;
        let us = self.side;
        self.do_move(m);
        proof {
            lemma_do_then_undoable(b0, *self, m);
            lemma_kings_preserved(b0@, m, Color::White);
            lemma_kings_preserved(b0@, m, Color::Black);
        }
        let ksq = self.get_king_sq(us);
        let atk = self.square_attacked(ksq, self.side);
        let ghost p2 = self@;
        self.undo_move(m);
        proof {
            assert(final(self).history@ =~= b0.history@);
            let pd = spec_do(b0@, m);
            assert(p2 == pd);
            if !atk {
                assert forall|t: int|
                    on_board(t) && #[trigger] pd.squares[t] == Some(
                        (b0@.side, Piece::King),
                    ) implies !attacked(pd.squares, pd.side, t) by {
                    lemma_king_unique(pd.squares, us, t, ksq.0 as int);
                }
            } else {
                assert(pd.squares[ksq.0 as int] == Some((b0@.side, Piece::King)));
                assert(!king_safe_after(b0@, m));
            }
        }
        !atk
    }
}

/// A word marking exactly the squares of one piece kind counts the
/// occurrences of that kind.
pub proof fn lemma_count_matches_occ(word: u64, sqv: Squares, c: Color, p: Piece, n: int)
    requires
        sqv.len() == 64,
        n <= 64,
        forall|s: u64| s < 64 ==> (#[trigger] bb_get(word, s) <==> sqv[s as int] == Some((c, p))),
    ensures
        crate::bits::bb_count_below(word, n) == occ_count(sqv, c, p, n),
    decreases n,
{
    if n > 0 {
        lemma_count_matches_occ(word, sqv, c, p, n - 1);
    }
}

/// Disjoint boards: two piece boards never share a square.
pub proof fn lemma_disjoint_boards(b: Board, i: int, j: int, s: u64)
    requires
        b.wf(),
        0 <= i < 12,
        0 <= j < 12,
        i != j,
        s < 64,
    ensures
        !(bb_get(b.bb@[i], s) && bb_get(b.bb@[j], s)),
{
}

/// Occupancy: the union of the twelve piece boards is the
/// occupancy, which the two color words split.
pub proof fn lemma_occupancy_union(b: Board, s: u64)
    requires
        b.wf(),
        s < 64,
    ensures
        (bb_get(b.color_occ@[0], s) || bb_get(b.color_occ@[1], s)) <==> b@.squares[s as int]
            is Some,
        b@.squares[s as int] is Some <==> exists|pi: int|
            0 <= pi < 12 && #[trigger] bb_get(b.bb@[pi], s),
        !(bb_get(b.color_occ@[0], s) && bb_get(b.color_occ@[1], s)),
{
    assert(b@.squares[s as int] == decode_sq(b.mailbox@[s as int]));
    if b.mailbox@[s as int] < 12 {
        let pi = b.mailbox@[s as int] as int;
        assert(bb_get(b.bb@[pi], s));
    }
    if exists|pi: int| 0 <= pi < 12 && #[trigger] bb_get(b.bb@[pi], s) {
        let pi = choose|pi: int| 0 <= pi < 12 && #[trigger] bb_get(b.bb@[pi], s);
        assert(b.mailbox@[s as int] == pi);
    }
}

/// Kings: each side has exactly one king, as a square count and as
/// a popcount of its board word.
pub proof fn lemma_one_king(b: Board, c: Color)
    requires
        b.wf(),
    ensures
        occ_count(b@.squares, c, Piece::King, 64) == 1,
        bb_count(b.bb@[c.spec_idx() * 6 + 5]) == 1,
{
    let word = b.bb@[c.spec_idx() * 6 + 5];
    assert forall|s: u64| s < 64 implies (#[trigger] bb_get(word, s) <==> b@.squares[s as int]
        == Some((c, Piece::King))) by {
        assert(b@.squares[s as int] == decode_sq(b.mailbox@[s as int]));
    }
    lemma_count_matches_occ(word, b@.squares, c, Piece::King, 64);
}

/// Zobrist soundness: the maintained key equals the from-scratch
/// recomputation.
pub proof fn lemma_zobrist_sound(b: Board)
    requires
        b.wf(),
    ensures
        b.zobrist == spec_zobrist(b@),
{
}

impl Board {
    /// Builds a board from a piece placement and the meta state,
    /// computing boards, occupancy and Zobrist key from scratch.
    /// Returns nothing when a side has no king or several.
    pub fn from_parts(
        placement: &Vec<u8>,
        side: Color,
        castle: u8,
        ep: Option<Square>,
        halfmove: u16,
        fullmove: u16,
    ) -> (r: Option<Board>)
        requires
            mailbox_ok(placement@),
            castle < 16,
            match ep {
                Some(e) => e.wf() && sq_rank(e.0 as int) == ep_rank_of(side),
                None => true,
            },
            fullmove >= 1,
        ensures
            match r {
                Some(b) => {
                    &&& b.wf()
                    &&& b@ == (Position {
                        squares: mailbox_view(placement@),
                        side,
                        castle: castle as int,
                        ep: match ep {
                            Some(e) => Some(e.0 as int),
                            None => None,
                        },
                        halfmove: halfmove as int,
                        fullmove: fullmove as int,
                    })
                    &&& b.history@ == Seq::<HistRec>::empty()
                },
                None => !(occ_count(mailbox_view(placement@), Color::White, Piece::King, 64) == 1
                    && occ_count(mailbox_view(placement@), Color::Black, Piece::King, 64) == 1),
            },
    {
        proof {
            broadcast use lemma_bb_xor, lemma_bb_single, crate::bits::lemma_bb_empty;

        }
        let ghost view = mailbox_view(placement@);
        let keys = ZobristKeys::new();
        let mut bb: Vec<u64> = vec![0u64; 12];
        let mut color_occ: Vec<u64> = vec![0u64; 2];
        let mut z: u64 = 0;
        let mut s: usize = 0;
        while s < 64
            invariant
                mailbox_ok(placement@),
                view == mailbox_view(placement@),
                keys.wf(),
                s <= 64,
                bb@.len() == 12,
                color_occ@.len() == 2,
                forall|pi: int, s2: u64|
                    0 <= pi < 12 && s2 < 64 ==> (#[trigger] bb_get(bb@[pi], s2) <==> (s2 < s
                        && placement@[s2 as int] == pi)),
                forall|ci: int, s2: u64|
                    0 <= ci < 2 && s2 < 64 ==> (#[trigger] bb_get(color_occ@[ci], s2) <==> (s2 < s
                        && placement@[s2 as int] < 12 && placement@[s2 as int] / 6 == ci)),
                z == zob_squares(view, s as int),
            decreases 64 - s,
        {
            let code: u8 = placement[s];
            proof {
                broadcast use lemma_bb_xor, lemma_bb_single, crate::bits::lemma_bb_empty;

                assert(view[s as int] == decode_sq(code));
            }
            if code < 12 {
                let mask: u64 = 1u64 << (s as u64);
                let idx: usize = code as usize;
                let ci: usize = (code / 6) as usize;
                let word: u64 = bb[idx] ^ mask;
                bb[idx] = word;
                let oword: u64 = color_occ[ci] ^ mask;
                color_occ[ci] = oword;
                let c: Color = if code < 6 {
                    Color::White
                } else {
                    Color::Black
                };
                let p: Piece = Piece::from_idx((code % 6) as usize);
                z = z ^ keys.piece_key(c, p, s as u8);
                proof {
                    assert(view[s as int] == Some((c, p)));
                    assert(sq_key(s as int, view[s as int]) == spec_key_at(
                        piece_key_idx(c, p, s as int) as nat,
                    ));
                }
            } else {
                proof {
                    lemma_xor_zero(z);
                    assert(sq_key(s as int, view[s as int]) == 0u64);
                }
            }
            s = s + 1;
        }
        let white_kings = BitBoard(bb[5]).count();
        let black_kings = BitBoard(bb[11]).count();
        proof {
            assert forall|s2: u64| s2 < 64 implies (#[trigger] bb_get(bb@[5], s2)
                <==> view[s2 as int] == Some((Color::White, Piece::King))) by {
                assert(view[s2 as int] == decode_sq(placement@[s2 as int]));
            }
            assert forall|s2: u64| s2 < 64 implies (#[trigger] bb_get(bb@[11], s2)
                <==> view[s2 as int] == Some((Color::Black, Piece::King))) by {
                assert(view[s2 as int] == decode_sq(placement@[s2 as int]));
            }
            lemma_count_matches_occ(bb@[5], view, Color::White, Piece::King, 64);
            lemma_count_matches_occ(bb@[11], view, Color::Black, Piece::King, 64);
        }
        if white_kings != 1 || black_kings != 1 {
            return None;
        }
        let sk: u64 = match side {
            Color::White => 0,
            Color::Black => keys.side_key(),
        };
        let ck: u64 = keys.castle_key(castle);
        let ek: u64 = match ep {
            Some(e) => keys.ep_key(e.file()),
            None => 0,
        };
        let zobrist: u64 = ((z ^ sk) ^ ck) ^ ek;
        let mut b = Board {
            keys,
            bb,
            color_occ,
            mailbox: placement.clone(),
            side,
            castle,
            ep,
            halfmove,
            fullmove,
            zobrist,
            checkers: 0,
            history: Vec::new(),
        };
        proof {
            assert(b.mailbox@ == placement@);
            assert(b@.squares =~= view);
            assert(b@ =~= (Position {
                squares: mailbox_view(placement@),
                side,
                castle: castle as int,
                ep: match ep {
                    Some(e) => Some(e.0 as int),
                    None => None,
                },
                halfmove: halfmove as int,
                fullmove: fullmove as int,
            }));
            assert(b.zobrist == spec_zobrist(b@));
        }
        let ksq = b.get_king_sq(side);
        let checkers_word = b.attackers_to(ksq, side.invert());
        b.checkers = checkers_word.0;
        proof {
            assert forall|s2: u64, t: u64|
                s2 < 64 && t < 64 && b@.squares[t as int] == Some(
                    (side, Piece::King),
                ) implies (#[trigger] bb_get(b.checkers, s2) <==> #[trigger] attacker_at(
                b@.squares,
                side.spec_invert(),
                s2 as int,
                t as int,
            )) by {
                lemma_king_unique(b@.squares, side, t as int, ksq.0 as int);
                assert(t as int == ksq.0 as int);
                assert(bb_get(b.checkers, s2) == checkers_word.spec_has(s2));
                assert(checkers_word.spec_has(s2) <==> attacker_at(
                    b@.squares,
                    side.spec_invert(),
                    s2 as int,
                    ksq.0 as int,
                ));
            }
        }
        Some(b)
    }
}

/// How many history records in `[lo, hi)` hold the given Zobrist
/// key.
pub open spec fn count_z(hist: Seq<HistRec>, z: u64, lo: int, hi: int) -> nat
    decreases hi - lo,
{
    if lo >= hi {
        0
    } else {
        count_z(hist, z, lo, hi - 1) + if hist[hi - 1].zobrist == z {
            1nat
        } else {
            0nat
        }
    }
}

/// The first history index the fifty-move window still reaches:
/// only positions since the last irreversible move can repeat.
pub open spec fn rep_window_lo(b: Board) -> int {
    if b@.halfmove <= b.history@.len() {
        b.history@.len() - b@.halfmove
    } else {
        0
    }
}

/// How often the current position already occurred, by Zobrist
/// key, within the fifty-move window of the history.
pub open spec fn spec_repetitions(b: Board) -> nat {
    count_z(b.history@, b.zobrist, rep_window_lo(b), b.history@.len() as int)
}

/// Insufficient material: no pawn, rook or queen on the board and
/// at most one minor piece in all.
pub open spec fn spec_insufficient(sq: Squares) -> bool {
    &&& occ_count(sq, Color::White, Piece::Pawn, 64) == 0
    &&& occ_count(sq, Color::Black, Piece::Pawn, 64) == 0
    &&& occ_count(sq, Color::White, Piece::Rook, 64) == 0
    &&& occ_count(sq, Color::Black, Piece::Rook, 64) == 0
    &&& occ_count(sq, Color::White, Piece::Queen, 64) == 0
    &&& occ_count(sq, Color::Black, Piece::Queen, 64) == 0
    &&& occ_count(sq, Color::White, Piece::Knight, 64) + occ_count(
        sq,
        Color::White,
        Piece::Bishop,
        64,
    ) + occ_count(sq, Color::Black, Piece::Knight, 64) + occ_count(
        sq,
        Color::Black,
        Piece::Bishop,
        64,
    ) <= 1
}

/// A draw by rule, counted with the repetitions it takes: one
/// earlier occurrence suffices inside the search tree, two make
/// the threefold rule.
pub open spec fn spec_draw_state(b: Board, reps_needed: int) -> bool {
    ||| b@.halfmove >= 100
    ||| spec_insufficient(b@.squares)
    ||| spec_repetitions(b) >= reps_needed
}

/// In a consistent board, a piece board word is zero exactly when
/// no square holds that piece.
pub proof fn lemma_word_zero_occ(b: Board, c: Color, p: Piece)
    requires
        b.boards_ok(),
    ensures
        (b.bb@[c.spec_idx() * 6 + p.spec_idx()] == 0u64) <==> (occ_count(b@.squares, c, p, 64)
            == 0),
{
    let word = b.bb@[c.spec_idx() * 6 + p.spec_idx()];
    assert forall|s: u64| s < 64 implies (#[trigger] bb_get(word, s) <==> b@.squares[s as int]
        == Some((c, p))) by {
        assert(b@.squares[s as int] == decode_sq(b.mailbox@[s as int]));
    }
    lemma_count_matches_occ(word, b@.squares, c, p, 64);
    if word == 0u64 {
        lemma_count_empty();
    } else {
        broadcast use vstd::std_specs::bits::axiom_u64_trailing_zeros;

        let tz = word.trailing_zeros();
        assert(bb_get(word, tz as u64));
        lemma_occ_one(b@.squares, c, p, tz as int, 64);
    }
}

impl Board {
    /// Number of squares holding a piece of one color and kind.
    pub fn piece_count(&self, c: Color, p: Piece) -> (r: u8)
        requires
            self.boards_ok(),
        ensures
            r == occ_count(self@.squares, c, p, 64),
    {
        let word = self.get_bitboard(c, p);
        proof {
            lemma_count_matches_occ(word.0, self@.squares, c, p, 64);
        }
        word.count()
    }

    /// Whether the board holds insufficient material to mate.
    pub fn insufficient_material(&self) -> (r: bool)
        requires
            self.boards_ok(),
        ensures
            r == spec_insufficient(self@.squares),
    {
        proof {
            lemma_word_zero_occ(*self, Color::White, Piece::Pawn);
            lemma_word_zero_occ(*self, Color::Black, Piece::Pawn);
            lemma_word_zero_occ(*self, Color::White, Piece::Rook);
            lemma_word_zero_occ(*self, Color::Black, Piece::Rook);
            lemma_word_zero_occ(*self, Color::White, Piece::Queen);
            lemma_word_zero_occ(*self, Color::Black, Piece::Queen);
        }
        if self.bb[0] != 0 || self.bb[6] != 0 || self.bb[1] != 0 || self.bb[7] != 0 || self.bb[4]
            != 0 || self.bb[10] != 0 {
            proof {
                assert(self.bb@[Color::White.spec_idx() * 6 + Piece::Pawn.spec_idx()]
                    == self.bb@[0]);
            }
            return false;
        }
        let minors: u16 = self.piece_count(Color::White, Piece::Knight) as u16
            + self.piece_count(Color::White, Piece::Bishop) as u16 + self.piece_count(
            Color::Black,
            Piece::Knight,
        ) as u16 + self.piece_count(Color::Black, Piece::Bishop) as u16;
        minors <= 1
    }

    /// How often the current position already occurred within the
    /// fifty-move window of the history.
    pub fn repetitions(&self) -> (r: usize)
        ensures
            r == spec_repetitions(*self),
    {
        let len = self.history.len();
        let lo: usize = if (self.halfmove as usize) <= len {
            len - (self.halfmove as usize)
        } else {
            0
        };
        let mut cnt: usize = 0;
        let mut i: usize = lo;
        while i < len
            invariant
                lo <= i <= len,
                len == self.history@.len(),
                lo == rep_window_lo(*self),
                cnt == count_z(self.history@, self.zobrist, lo as int, i as int),
                cnt <= i,
            decreases len - i,
        {
            if self.history[i].zobrist == self.zobrist {
                cnt = cnt + 1;
            }
            i = i + 1;
        }
        cnt
    }

    /// A pseudo-draw for search cutoffs: fifty-move rule,
    /// insufficient material, or one repetition within the search
    /// stack.
    pub fn is_pseudo_draw(&self) -> (r: bool)
        requires
            self.boards_ok(),
        ensures
            r == spec_draw_state(*self, 1),
    {
        self.halfmove >= 100 || self.insufficient_material() || self.repetitions() >= 1
    }

    /// A draw by rule for game status: fifty-move rule,
    /// insufficient material, or threefold repetition.
    pub fn is_rule_draw(&self) -> (r: bool)
        requires
            self.boards_ok(),
        ensures
            r == spec_draw_state(*self, 2),
    {
        self.halfmove >= 100 || self.insufficient_material() || self.repetitions() >= 2
    }
}

} // verus!
