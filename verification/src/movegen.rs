//! Move generation: the complete set of pseudo-legal moves for the
//! side to move, split into captures, queen promotions and quiet
//! moves, proved sound, complete and duplicate-free against the
//! pseudo-legality spec.

use vstd::prelude::*;
use crate::attacks::{
    attacked, bishop_targets, king_geo, king_targets, knight_geo, knight_targets, on_board,
    pawn_attack_geo, pawn_dir, pawn_targets, piece_attacks, rook_targets, sq_file, sq_rank,
    Squares,
};
use crate::bits::{bb_count, bb_get, BitBoard};
use crate::board::{has_right, spec_do, spec_move_ok, Board, Position};
use crate::color::Color;
use crate::moves::Move;
use crate::piece::Piece;
use crate::square::Square;

verus! {

/// The rank a pawn of this side promotes on.
pub open spec fn promo_rank(side: Color) -> int {
    match side {
        Color::White => 7,
        Color::Black => 0,
    }
}

/// Full pseudo-legality: the structural conditions of the move and
/// the movement geometry of the moving piece; for the castles also
/// that the king's current and passed squares are not attacked.
pub open spec fn spec_pseudo_legal(p: Position, m: Move) -> bool {
    let side = p.side;
    let them = side.spec_invert();
    &&& spec_move_ok(p, m)
    &&& match m {
        Move::Quiet { from, to } => match p.squares[from.0 as int] {
            Some((_, pc)) => match pc {
                Piece::Pawn => to.0 as int == from.0 as int + 8 * pawn_dir(side) && sq_rank(
                    to.0 as int,
                ) != promo_rank(side),
                Piece::Knight => knight_geo(from.0 as int, to.0 as int),
                Piece::Bishop => crate::attacks::bishop_geo(p.squares, from.0 as int, to.0 as int),
                Piece::Rook => crate::attacks::rook_geo(p.squares, from.0 as int, to.0 as int),
                Piece::Queen => crate::attacks::rook_geo(p.squares, from.0 as int, to.0 as int)
                    || crate::attacks::bishop_geo(p.squares, from.0 as int, to.0 as int),
                Piece::King => king_geo(from.0 as int, to.0 as int),
            },
            None => false,
        },
        Move::Capture { from, to, .. } => match p.squares[from.0 as int] {
            Some((_, pc)) => match pc {
                Piece::Pawn => pawn_attack_geo(side, from.0 as int, to.0 as int) && sq_rank(
                    to.0 as int,
                ) != promo_rank(side),
                Piece::Knight => knight_geo(from.0 as int, to.0 as int),
                Piece::Bishop => crate::attacks::bishop_geo(p.squares, from.0 as int, to.0 as int),
                Piece::Rook => crate::attacks::rook_geo(p.squares, from.0 as int, to.0 as int),
                Piece::Queen => crate::attacks::rook_geo(p.squares, from.0 as int, to.0 as int)
                    || crate::attacks::bishop_geo(p.squares, from.0 as int, to.0 as int),
                Piece::King => king_geo(from.0 as int, to.0 as int),
            },
            None => false,
        },
        Move::Promote { from, to, .. } => to.0 as int == from.0 as int + 8 * pawn_dir(side)
            && sq_rank(to.0 as int) == promo_rank(side),
        Move::PromoteCapture { from, to, .. } => pawn_attack_geo(side, from.0 as int, to.0 as int)
            && sq_rank(to.0 as int) == promo_rank(side),
        Move::EnPassant { .. } => true,
        Move::DoublePush { .. } => true,
        Move::KingCastle => match side {
            Color::White => !attacked(p.squares, them, 4) && !attacked(p.squares, them, 5),
            Color::Black => !attacked(p.squares, them, 60) && !attacked(p.squares, them, 61),
        },
        Move::QueenCastle => match side {
            Color::White => !attacked(p.squares, them, 4) && !attacked(p.squares, them, 3),
            Color::Black => !attacked(p.squares, them, 60) && !attacked(p.squares, them, 59),
        },
        Move::Null => false,
    }
}

/// Full legality: pseudo-legal, and the mover's king is safe once
/// the move is made.
pub open spec fn spec_legal(p: Position, m: Move) -> bool {
    spec_pseudo_legal(p, m) && crate::board::king_safe_after(p, m)
}

/// A pseudo-legal capture or quiet move of a given non-pawn piece
/// kind starting on a given square.
pub open spec fn cat_piece_from(p: Position, pc: Piece, captures: bool, from: Square, m: Move) -> bool {
    &&& spec_pseudo_legal(p, m)
    &&& p.squares[from.0 as int] == Some((p.side, pc))
    &&& if captures {
        m matches Move::Capture { from: f, .. } && f == from
    } else {
        m matches Move::Quiet { from: f, .. } && f == from
    }
}

/// The target set of one piece on one square, filtered by the
/// occupancy the category asks for.
pub open spec fn tos_char(p: Position, pc: Piece, captures: bool, from: Square, w: BitBoard) -> bool {
    forall|t: u64|
        t < 64 ==> (#[trigger] w.spec_has(t) == (piece_attacks(
            p.squares,
            p.side,
            pc,
            from.0 as int,
            t as int,
        ) && (if captures {
            match p.squares[t as int] {
                Some((oc, _)) => oc == p.side.spec_invert(),
                None => false,
            }
        } else {
            p.squares[t as int] is None
        })))
}

impl Board {
    /// The attack targets of a non-pawn piece standing on `from`.
    pub fn piece_targets(&self, pc: Piece, from: Square) -> (r: BitBoard)
        requires
            self.boards_ok(),
            from.wf(),
            pc != Piece::Pawn,
        ensures
            forall|t: u64|
                t < 64 ==> (#[trigger] r.spec_has(t) == piece_attacks(
                    self@.squares,
                    self@.side,
                    pc,
                    from.0 as int,
                    t as int,
                )),
    {
        match pc {
            Piece::Knight => knight_targets(from),
            Piece::King => king_targets(from),
            Piece::Rook => rook_targets(&self.mailbox, from),
            Piece::Bishop => bishop_targets(&self.mailbox, from),
            _ => rook_targets(&self.mailbox, from).union(bishop_targets(&self.mailbox, from)),
        }
    }

    /// Appends every pseudo-legal capture (or quiet move) of the
    /// non-pawn piece standing on `from`: one move per reachable
    /// target, no duplicates, nothing else.
    pub fn gen_piece_moves_from(&self, pc: Piece, captures: bool, from: Square, buffer: &mut Vec<
        Move,
    >)
        requires
            self.boards_ok(),
            from.wf(),
            pc != Piece::Pawn,
            self@.squares[from.0 as int] == Some((self@.side, pc)),
        ensures
            final(buffer)@.len() >= old(buffer)@.len(),
            forall|i: int| 0 <= i < old(buffer)@.len() ==> final(buffer)@[i] == old(buffer)@[i],
            forall|i: int|
                old(buffer)@.len() <= i < final(buffer)@.len() ==> cat_piece_from(
                    self@,
                    pc,
                    captures,
                    from,
                    #[trigger] final(buffer)@[i],
                ),
            forall|m: Move|
                #[trigger] cat_piece_from(self@, pc, captures, from, m) ==> exists|i: int|
                    old(buffer)@.len() <= i < final(buffer)@.len() && final(buffer)@[i] == m,
            forall|i: int, j: int|
                old(buffer)@.len() <= i < j < final(buffer)@.len() ==> final(buffer)@[i]
                    != final(buffer)@[j],
    {
        let ghost p = self@;
        let ghost old_len = buffer@.len() as int;
        let us = self.side;
        let them = us.invert();
        let mask: BitBoard = if captures {
            self.get_color_occupancy(them)
        } else {
            self.get_occupancy().complement()
        };
        let mut tos: BitBoard = self.piece_targets(pc, from).inter(mask);
        let ghost all_tos = tos;
        proof {
            broadcast use crate::bits::lemma_bb_high;

        }
        while tos.0 != 0
            invariant
                self.boards_ok(),
                p == self@,
                us == p.side,
                them == us.spec_invert(),
                from.wf(),
                pc != Piece::Pawn,
                p.squares[from.0 as int] == Some((us, pc)),
                buffer@.len() >= old_len,
                forall|i: int| 0 <= i < old_len ==> buffer@[i] == old(buffer)@[i],
                old_len == old(buffer)@.len(),
                forall|t: u64| #[trigger] tos.spec_has(t) ==> t < 64 && all_tos.spec_has(t),
                tos_char(p, pc, captures, from, all_tos),
                forall|i: int|
                    old_len <= i < buffer@.len() ==> cat_piece_from(
                        p,
                        pc,
                        captures,
                        from,
                        #[trigger] buffer@[i],
                    ),
                forall|i: int|
                    old_len <= i < buffer@.len() ==> !tos.spec_has(
                        (#[trigger] buffer@[i]).spec_to(us).0 as u64,
                    ),
                forall|m: Move|
                    #[trigger] cat_piece_from(p, pc, captures, from, m) && !tos.spec_has(
                        m.spec_to(us).0 as u64,
                    ) ==> exists|i: int| old_len <= i < buffer@.len() && buffer@[i] == m,
                forall|i: int, j: int| old_len <= i < j < buffer@.len() ==> buffer@[i] != buffer@[j],
            decreases bb_count(tos.0),
        {
            let ghost tos0 = tos;
            let t: u8 = tos.pop_first();
            let to = Square(t);
            let ghost pre = buffer@;
            proof {
                assert(all_tos.spec_has(t as u64));
                assert(piece_attacks(p.squares, us, pc, from.0 as int, t as int));
            }
            if captures {
                match self.piece_at(to) {
                    Some((_, cap)) => {
                        if !matches!(cap, Piece::King) {
                            proof {
                                assert(p.squares[t as int] matches Some((oc, _)) && oc == them);
                                assert(from.0 != t);
                                assert(cat_piece_from(
                                    p,
                                    pc,
                                    captures,
                                    from,
                                    Move::Capture { from, to, capture: cap },
                                ));
                            }
                            buffer.push(Move::Capture { from, to, capture: cap });
                        }
                    },
                    None => {},
                }
            } else {
                proof {
                    assert(p.squares[t as int] is None);
                    assert(from.0 != t);
                    assert(cat_piece_from(p, pc, captures, from, Move::Quiet { from, to }));
                }
                buffer.push(Move::Quiet { from, to });
            }
            proof {
                assert forall|m: Move|
                    #[trigger] cat_piece_from(p, pc, captures, from, m) && !tos.spec_has(
                        m.spec_to(us).0 as u64,
                    ) implies exists|i: int| old_len <= i < buffer@.len() && buffer@[i] == m by {
                    if m.spec_to(us).0 == t {
                        assert(all_tos.spec_has(t as u64));
                        assert(buffer@[buffer@.len() - 1] == m);
                    } else {
                        assert(tos0.spec_has(m.spec_to(us).0 as u64) == tos.spec_has(
                            m.spec_to(us).0 as u64,
                        ));
                        let i = choose|i: int| old_len <= i < pre.len() && pre[i] == m;
                        assert(buffer@[i] == m);
                    }
                }
            }
        }
        proof {
            broadcast use crate::bits::lemma_bb_high;

            assert forall|m: Move|
                #[trigger] cat_piece_from(p, pc, captures, from, m) implies exists|i: int|
                old_len <= i < buffer@.len() && buffer@[i] == m by {
                assert(!tos.spec_has(m.spec_to(us).0 as u64)) by {
                    crate::bits::lemma_bb_empty(m.spec_to(us).0 as u64);
                }
            }
        }
    }
}

/// A pseudo-legal capture of the pawn standing on `from`: a plain
/// capture or a promotion capture.
pub open spec fn cat_pawn_caps_from(p: Position, from: Square, m: Move) -> bool {
    &&& spec_pseudo_legal(p, m)
    &&& p.squares[from.0 as int] == Some((p.side, Piece::Pawn))
    &&& match m {
        Move::Capture { from: f, .. } => f == from,
        Move::PromoteCapture { from: f, .. } => f == from,
        _ => false,
    }
}

/// A pseudo-legal quiet push or double push of the pawn standing on
/// `from`.
pub open spec fn cat_pawn_quiets_from(p: Position, from: Square, m: Move) -> bool {
    &&& spec_pseudo_legal(p, m)
    &&& p.squares[from.0 as int] == Some((p.side, Piece::Pawn))
    &&& match m {
        Move::Quiet { from: f, .. } => f == from,
        Move::DoublePush { from: f, .. } => f == from,
        _ => false,
    }
}

/// A pseudo-legal promotion push of the pawn standing on `from`,
/// restricted to the queen or to the under-promotions.
pub open spec fn cat_promo_push_from(p: Position, from: Square, queen: bool, m: Move) -> bool {
    &&& spec_pseudo_legal(p, m)
    &&& p.squares[from.0 as int] == Some((p.side, Piece::Pawn))
    &&& match m {
        Move::Promote { from: f, promote, .. } => f == from && (promote == Piece::Queen) == queen,
        _ => false,
    }
}

/// The diagonally-forward enemy-occupied targets of one pawn.
pub open spec fn pawn_tos_char(p: Position, from: Square, w: BitBoard) -> bool {
    forall|t: u64|
        t < 64 ==> (#[trigger] w.spec_has(t) == (pawn_attack_geo(p.side, from.0 as int, t as int)
            && (match p.squares[t as int] {
            Some((oc, _)) => oc == p.side.spec_invert(),
            None => false,
        })))
}

impl Board {
    /// Appends every pseudo-legal capture of the pawn on `from`:
    /// plain captures off the promotion rank, all four promotion
    /// captures on it.
    pub fn gen_pawn_captures_from(&self, from: Square, buffer: &mut Vec<Move>)
        requires
            self.boards_ok(),
            from.wf(),
            self@.squares[from.0 as int] == Some((self@.side, Piece::Pawn)),
        ensures
            final(buffer)@.len() >= old(buffer)@.len(),
            forall|i: int| 0 <= i < old(buffer)@.len() ==> final(buffer)@[i] == old(buffer)@[i],
            forall|i: int|
                old(buffer)@.len() <= i < final(buffer)@.len() ==> cat_pawn_caps_from(
                    self@,
                    from,
                    #[trigger] final(buffer)@[i],
                ),
            forall|m: Move|
                #[trigger] cat_pawn_caps_from(self@, from, m) ==> exists|i: int|
                    old(buffer)@.len() <= i < final(buffer)@.len() && final(buffer)@[i] == m,
            forall|i: int, j: int|
                old(buffer)@.len() <= i < j < final(buffer)@.len() ==> final(buffer)@[i]
                    != final(buffer)@[j],
    {
        let ghost p = self@;
        let ghost old_len = buffer@.len() as int;
        let us = self.side;
        let them = us.invert();
        let promo: u8 = match us {
            Color::White => 7,
            Color::Black => 0,
        };
        let mut tos: BitBoard = pawn_targets(us, from).inter(self.get_color_occupancy(them));
        let ghost all_tos = tos;
        proof {
            broadcast use crate::bits::lemma_bb_high;

            assert(pawn_tos_char(p, from, all_tos));
        }
        while tos.0 != 0
            invariant
                self.boards_ok(),
                p == self@,
                us == p.side,
                them == us.spec_invert(),
                promo as int == promo_rank(us),
                from.wf(),
                p.squares[from.0 as int] == Some((us, Piece::Pawn)),
                buffer@.len() >= old_len,
                forall|i: int| 0 <= i < old_len ==> buffer@[i] == old(buffer)@[i],
                old_len == old(buffer)@.len(),
                forall|t: u64| #[trigger] tos.spec_has(t) ==> t < 64 && all_tos.spec_has(t),
                pawn_tos_char(p, from, all_tos),
                forall|i: int|
                    old_len <= i < buffer@.len() ==> cat_pawn_caps_from(
                        p,
                        from,
                        #[trigger] buffer@[i],
                    ),
                forall|i: int|
                    old_len <= i < buffer@.len() ==> !tos.spec_has(
                        (#[trigger] buffer@[i]).spec_to(us).0 as u64,
                    ),
                forall|m: Move|
                    #[trigger] cat_pawn_caps_from(p, from, m) && !tos.spec_has(
                        m.spec_to(us).0 as u64,
                    ) ==> exists|i: int| old_len <= i < buffer@.len() && buffer@[i] == m,
                forall|i: int, j: int| old_len <= i < j < buffer@.len() ==> buffer@[i] != buffer@[j],
            decreases bb_count(tos.0),
        {
            let ghost tos0 = tos;
            let t: u8 = tos.pop_first();
            let to = Square(t);
            let ghost pre = buffer@;
            proof {
                assert(all_tos.spec_has(t as u64));
                assert(pawn_attack_geo(us, from.0 as int, t as int));
            }
            match self.piece_at(to) {
                Some((_, cap)) => {
                    if !matches!(cap, Piece::King) {
                        proof {
                            assert(from.0 != t);
                        }
                        if to.rank() == promo {
                            buffer.push(
                                Move::PromoteCapture { from, to, capture: cap, promote: Piece::Queen },
                            );
                            buffer.push(
                                Move::PromoteCapture { from, to, capture: cap, promote: Piece::Rook },
                            );
                            buffer.push(
                                Move::PromoteCapture {
                                    from,
                                    to,
                                    capture: cap,
                                    promote: Piece::Bishop,
                                },
                            );
                            buffer.push(
                                Move::PromoteCapture {
                                    from,
                                    to,
                                    capture: cap,
                                    promote: Piece::Knight,
                                },
                            );
                        } else {
                            buffer.push(Move::Capture { from, to, capture: cap });
                        }
                    }
                },
                None => {},
            }
            proof {
                assert forall|m: Move|
                    #[trigger] cat_pawn_caps_from(p, from, m) && !tos.spec_has(
                        m.spec_to(us).0 as u64,
                    ) implies exists|i: int| old_len <= i < buffer@.len() && buffer@[i] == m by {
                    if m.spec_to(us).0 == t {
                        assert(all_tos.spec_has(t as u64));
                        let n = buffer@.len() as int;
                        if sq_rank(t as int) == promo_rank(us) {
                            assert(buffer@[n - 4] == m || buffer@[n - 3] == m || buffer@[n - 2]
                                == m || buffer@[n - 1] == m);
                        } else {
                            assert(buffer@[n - 1] == m);
                        }
                    } else {
                        assert(tos0.spec_has(m.spec_to(us).0 as u64) == tos.spec_has(
                            m.spec_to(us).0 as u64,
                        ));
                        let i = choose|i: int| old_len <= i < pre.len() && pre[i] == m;
                        assert(buffer@[i] == m);
                    }
                }
            }
        }
        proof {
            assert forall|m: Move|
                #[trigger] cat_pawn_caps_from(p, from, m) implies exists|i: int|
                old_len <= i < buffer@.len() && buffer@[i] == m by {
                crate::bits::lemma_bb_empty(m.spec_to(us).0 as u64);
            }
        }
    }

    /// Appends the quiet single push and the double push of the
    /// pawn on `from`, where the squares ahead allow them.
    pub fn gen_pawn_quiets_from(&self, from: Square, buffer: &mut Vec<Move>)
        requires
            self.boards_ok(),
            from.wf(),
            self@.squares[from.0 as int] == Some((self@.side, Piece::Pawn)),
        ensures
            final(buffer)@.len() >= old(buffer)@.len(),
            forall|i: int| 0 <= i < old(buffer)@.len() ==> final(buffer)@[i] == old(buffer)@[i],
            forall|i: int|
                old(buffer)@.len() <= i < final(buffer)@.len() ==> cat_pawn_quiets_from(
                    self@,
                    from,
                    #[trigger] final(buffer)@[i],
                ),
            forall|m: Move|
                #[trigger] cat_pawn_quiets_from(self@, from, m) ==> exists|i: int|
                    old(buffer)@.len() <= i < final(buffer)@.len() && final(buffer)@[i] == m,
            forall|i: int, j: int|
                old(buffer)@.len() <= i < j < final(buffer)@.len() ==> final(buffer)@[i]
                    != final(buffer)@[j],
    {
        let ghost p = self@;
        let ghost old_len = buffer@.len() as int;
        let us = self.side;
        let dir: i16 = match us {
            Color::White => 1,
            Color::Black => -1,
        };
        let start_rank: u8 = match us {
            Color::White => 1,
            Color::Black => 6,
        };
        let promo: u8 = match us {
            Color::White => 7,
            Color::Black => 0,
        };
        let t1: i16 = from.0 as i16 + 8 * dir;
        if 0 <= t1 && t1 < 64 {
            let to1 = Square(t1 as u8);
            if self.piece_at(to1).is_none() {
                if to1.rank() != promo {
                    buffer.push(Move::Quiet { from, to: to1 });
                }
                if from.rank() == start_rank {
                    let t2: i16 = from.0 as i16 + 16 * dir;
                    let to2 = Square(t2 as u8);
                    if self.piece_at(to2).is_none() {
                        buffer.push(Move::DoublePush { from, to: to2 });
                    }
                }
            }
        }
        proof {
            assert forall|m: Move|
                #[trigger] cat_pawn_quiets_from(p, from, m) implies exists|i: int|
                old_len <= i < buffer@.len() && buffer@[i] == m by {
                match m {
                    Move::Quiet { from: f, to } => {
                        assert(to.0 as int == from.0 as int + 8 * pawn_dir(us));
                        assert(buffer@[old_len] == m);
                    },
                    Move::DoublePush { from: f, to } => {
                        assert(to.0 as int == from.0 as int + 16 * pawn_dir(us));
                        assert(buffer@[buffer@.len() - 1] == m);
                    },
                    _ => {},
                }
            }
        }
    }

    /// Appends the promotion pushes of the pawn on `from`: the
    /// queen promotion alone, or the three under-promotions.
    pub fn gen_promo_pushes_from(&self, from: Square, queen: bool, buffer: &mut Vec<Move>)
        requires
            self.boards_ok(),
            from.wf(),
            self@.squares[from.0 as int] == Some((self@.side, Piece::Pawn)),
        ensures
            final(buffer)@.len() >= old(buffer)@.len(),
            forall|i: int| 0 <= i < old(buffer)@.len() ==> final(buffer)@[i] == old(buffer)@[i],
            forall|i: int|
                old(buffer)@.len() <= i < final(buffer)@.len() ==> cat_promo_push_from(
                    self@,
                    from,
                    queen,
                    #[trigger] final(buffer)@[i],
                ),
            forall|m: Move|
                #[trigger] cat_promo_push_from(self@, from, queen, m) ==> exists|i: int|
                    old(buffer)@.len() <= i < final(buffer)@.len() && final(buffer)@[i] == m,
            forall|i: int, j: int|
                old(buffer)@.len() <= i < j < final(buffer)@.len() ==> final(buffer)@[i]
                    != final(buffer)@[j],
    {
        let ghost p = self@;
        let ghost old_len = buffer@.len() as int;
        let us = self.side;
        let dir: i16 = match us {
            Color::White => 1,
            Color::Black => -1,
        };
        let promo: u8 = match us {
            Color::White => 7,
            Color::Black => 0,
        };
        let t1: i16 = from.0 as i16 + 8 * dir;
        if 0 <= t1 && t1 < 64 {
            let to = Square(t1 as u8);
            if self.piece_at(to).is_none() && to.rank() == promo {
                if queen {
                    buffer.push(Move::Promote { from, to, promote: Piece::Queen });
                } else {
                    buffer.push(Move::Promote { from, to, promote: Piece::Rook });
                    buffer.push(Move::Promote { from, to, promote: Piece::Bishop });
                    buffer.push(Move::Promote { from, to, promote: Piece::Knight });
                }
            }
        }
        proof {
            assert forall|m: Move|
                #[trigger] cat_promo_push_from(p, from, queen, m) implies exists|i: int|
                old_len <= i < buffer@.len() && buffer@[i] == m by {
                match m {
                    Move::Promote { from: f, to, promote } => {
                        assert(to.0 as int == from.0 as int + 8 * pawn_dir(us));
                        let n = buffer@.len() as int;
                        if queen {
                            assert(buffer@[old_len] == m);
                        } else {
                            assert(buffer@[n - 3] == m || buffer@[n - 2] == m || buffer@[n - 1]
                                == m);
                        }
                    },
                    _ => {},
                }
            }
        }
    }
}

/// A pseudo-legal capture or quiet move of a given non-pawn piece
/// kind.
pub open spec fn cat_piece(p: Position, pc: Piece, captures: bool, m: Move) -> bool {
    cat_piece_from(p, pc, captures, m.spec_from(p.side), m)
}

/// A pseudo-legal pawn capture, promotion captures included.
pub open spec fn cat_pawn_caps(p: Position, m: Move) -> bool {
    cat_pawn_caps_from(p, m.spec_from(p.side), m)
}

/// A pseudo-legal quiet pawn push or double push.
pub open spec fn cat_pawn_quiets(p: Position, m: Move) -> bool {
    cat_pawn_quiets_from(p, m.spec_from(p.side), m)
}

/// A pseudo-legal promotion push, queen or under-promotion.
pub open spec fn cat_promo_push(p: Position, queen: bool, m: Move) -> bool {
    cat_promo_push_from(p, m.spec_from(p.side), queen, m)
}

/// A pseudo-legal en-passant capture.
pub open spec fn cat_ep(p: Position, m: Move) -> bool {
    spec_pseudo_legal(p, m) && m is EnPassant
}

/// A pseudo-legal castle.
pub open spec fn cat_castle(p: Position, m: Move) -> bool {
    spec_pseudo_legal(p, m) && (m is KingCastle || m is QueenCastle)
}

impl Board {
    /// Appends every pseudo-legal capture (or quiet move) of one
    /// non-pawn piece kind, iterating its piece board.
    pub fn gen_piece_moves(&self, pc: Piece, captures: bool, buffer: &mut Vec<Move>)
        requires
            self.boards_ok(),
            pc != Piece::Pawn,
        ensures
            final(buffer)@.len() >= old(buffer)@.len(),
            forall|i: int| 0 <= i < old(buffer)@.len() ==> final(buffer)@[i] == old(buffer)@[i],
            forall|i: int|
                old(buffer)@.len() <= i < final(buffer)@.len() ==> cat_piece(
                    self@,
                    pc,
                    captures,
                    #[trigger] final(buffer)@[i],
                ),
            forall|m: Move|
                #[trigger] cat_piece(self@, pc, captures, m) ==> exists|i: int|
                    old(buffer)@.len() <= i < final(buffer)@.len() && final(buffer)@[i] == m,
            forall|i: int, j: int|
                old(buffer)@.len() <= i < j < final(buffer)@.len() ==> final(buffer)@[i]
                    != final(buffer)@[j],
    {
        let ghost p = self@;
        let ghost old_len = buffer@.len() as int;
        let us = self.side;
        let mut froms: BitBoard = self.get_bitboard(us, pc);
        let ghost all_froms = froms;
        proof {
            broadcast use crate::bits::lemma_bb_high;

        }
        while froms.0 != 0
            invariant
                self.boards_ok(),
                p == self@,
                us == p.side,
                pc != Piece::Pawn,
                buffer@.len() >= old_len,
                forall|i: int| 0 <= i < old_len ==> buffer@[i] == old(buffer)@[i],
                old_len == old(buffer)@.len(),
                forall|f: u64| #[trigger] froms.spec_has(f) ==> f < 64 && all_froms.spec_has(f),
                forall|f: u64|
                    f < 64 ==> (#[trigger] all_froms.spec_has(f) <==> p.squares[f as int] == Some(
                        (us, pc),
                    )),
                forall|i: int|
                    old_len <= i < buffer@.len() ==> cat_piece(
                        p,
                        pc,
                        captures,
                        #[trigger] buffer@[i],
                    ),
                forall|i: int|
                    old_len <= i < buffer@.len() ==> !froms.spec_has(
                        (#[trigger] buffer@[i]).spec_from(us).0 as u64,
                    ),
                forall|m: Move|
                    #[trigger] cat_piece(p, pc, captures, m) && !froms.spec_has(
                        m.spec_from(us).0 as u64,
                    ) ==> exists|i: int| old_len <= i < buffer@.len() && buffer@[i] == m,
                forall|i: int, j: int| old_len <= i < j < buffer@.len() ==> buffer@[i] != buffer@[j],
            decreases bb_count(froms.0),
        {
            let ghost froms0 = froms;
            let f: u8 = froms.pop_first();
            let from = Square(f);
            let ghost pre = buffer@;
            proof {
                assert(all_froms.spec_has(f as u64));
            }
            self.gen_piece_moves_from(pc, captures, from, buffer);
            proof {
                assert forall|m: Move|
                    #[trigger] cat_piece(p, pc, captures, m) && !froms.spec_has(
                        m.spec_from(us).0 as u64,
                    ) implies exists|i: int| old_len <= i < buffer@.len() && buffer@[i] == m by {
                    if m.spec_from(us).0 == f {
                        assert(cat_piece_from(p, pc, captures, from, m));
                        let i = choose|i: int|
                            pre.len() <= i < buffer@.len() && #[trigger] buffer@[i] == m;
                        assert(buffer@[i] == m);
                    } else {
                        assert(froms0.spec_has(m.spec_from(us).0 as u64) == froms.spec_has(
                            m.spec_from(us).0 as u64,
                        ));
                        let i = choose|i: int| old_len <= i < pre.len() && pre[i] == m;
                        assert(buffer@[i] == m);
                    }
                }
                assert forall|i: int, j: int|
                    old_len <= i < j < buffer@.len() implies buffer@[i] != buffer@[j] by {
                    if i < pre.len() && j >= pre.len() {
                        assert(buffer@[i].spec_from(us).0 != f);
                        assert(buffer@[j].spec_from(us) == from);
                    }
                }
            }
        }
        proof {
            assert forall|m: Move|
                #[trigger] cat_piece(p, pc, captures, m) implies exists|i: int|
                old_len <= i < buffer@.len() && buffer@[i] == m by {
                crate::bits::lemma_bb_empty(m.spec_from(us).0 as u64);
            }
        }
    }

    /// Appends every pseudo-legal pawn capture, iterating the pawn
    /// board.
    pub fn gen_pawn_captures(&self, buffer: &mut Vec<Move>)
        requires
            self.boards_ok(),
        ensures
            final(buffer)@.len() >= old(buffer)@.len(),
            forall|i: int| 0 <= i < old(buffer)@.len() ==> final(buffer)@[i] == old(buffer)@[i],
            forall|i: int|
                old(buffer)@.len() <= i < final(buffer)@.len() ==> cat_pawn_caps(
                    self@,
                    #[trigger] final(buffer)@[i],
                ),
            forall|m: Move|
                #[trigger] cat_pawn_caps(self@, m) ==> exists|i: int|
                    old(buffer)@.len() <= i < final(buffer)@.len() && final(buffer)@[i] == m,
            forall|i: int, j: int|
                old(buffer)@.len() <= i < j < final(buffer)@.len() ==> final(buffer)@[i]
                    != final(buffer)@[j],
    {
        let ghost p = self@;
        let ghost old_len = buffer@.len() as int;
        let us = self.side;
        let mut froms: BitBoard = self.get_bitboard(us, Piece::Pawn);
        let ghost all_froms = froms;
        proof {
            broadcast use crate::bits::lemma_bb_high;

        }
        while froms.0 != 0
            invariant
                self.boards_ok(),
                p == self@,
                us == p.side,
                buffer@.len() >= old_len,
                forall|i: int| 0 <= i < old_len ==> buffer@[i] == old(buffer)@[i],
                old_len == old(buffer)@.len(),
                forall|f: u64| #[trigger] froms.spec_has(f) ==> f < 64 && all_froms.spec_has(f),
                forall|f: u64|
                    f < 64 ==> (#[trigger] all_froms.spec_has(f) <==> p.squares[f as int] == Some(
                        (us, Piece::Pawn),
                    )),
                forall|i: int|
                    old_len <= i < buffer@.len() ==> cat_pawn_caps(p, #[trigger] buffer@[i]),
                forall|i: int|
                    old_len <= i < buffer@.len() ==> !froms.spec_has(
                        (#[trigger] buffer@[i]).spec_from(us).0 as u64,
                    ),
                forall|m: Move|
                    #[trigger] cat_pawn_caps(p, m) && !froms.spec_has(m.spec_from(us).0 as u64)
                        ==> exists|i: int| old_len <= i < buffer@.len() && buffer@[i] == m,
                forall|i: int, j: int| old_len <= i < j < buffer@.len() ==> buffer@[i] != buffer@[j],
            decreases bb_count(froms.0),
        {
            let ghost froms0 = froms;
            let f: u8 = froms.pop_first();
            let from = Square(f);
            let ghost pre = buffer@;
            proof {
                assert(all_froms.spec_has(f as u64));
            }
            self.gen_pawn_captures_from(from, buffer);
            proof {
                assert forall|m: Move|
                    #[trigger] cat_pawn_caps(p, m) && !froms.spec_has(
                        m.spec_from(us).0 as u64,
                    ) implies exists|i: int| old_len <= i < buffer@.len() && buffer@[i] == m by {
                    if m.spec_from(us).0 == f {
                        assert(cat_pawn_caps_from(p, from, m));
                        let i = choose|i: int|
                            pre.len() <= i < buffer@.len() && #[trigger] buffer@[i] == m;
                        assert(buffer@[i] == m);
                    } else {
                        assert(froms0.spec_has(m.spec_from(us).0 as u64) == froms.spec_has(
                            m.spec_from(us).0 as u64,
                        ));
                        let i = choose|i: int| old_len <= i < pre.len() && pre[i] == m;
                        assert(buffer@[i] == m);
                    }
                }
                assert forall|i: int, j: int|
                    old_len <= i < j < buffer@.len() implies buffer@[i] != buffer@[j] by {
                    if i < pre.len() && j >= pre.len() {
                        assert(buffer@[i].spec_from(us).0 != f);
                        assert(buffer@[j].spec_from(us) == from);
                    }
                }
            }
        }
        proof {
            assert forall|m: Move|
                #[trigger] cat_pawn_caps(p, m) implies exists|i: int|
                old_len <= i < buffer@.len() && buffer@[i] == m by {
                crate::bits::lemma_bb_empty(m.spec_from(us).0 as u64);
            }
        }
    }

    /// Appends every pseudo-legal promotion push of one flavor,
    /// iterating the pawn board.
    pub fn gen_promo_pushes(&self, queen: bool, buffer: &mut Vec<Move>)
        requires
            self.boards_ok(),
        ensures
            final(buffer)@.len() >= old(buffer)@.len(),
            forall|i: int| 0 <= i < old(buffer)@.len() ==> final(buffer)@[i] == old(buffer)@[i],
            forall|i: int|
                old(buffer)@.len() <= i < final(buffer)@.len() ==> cat_promo_push(
                    self@,
                    queen,
                    #[trigger] final(buffer)@[i],
                ),
            forall|m: Move|
                #[trigger] cat_promo_push(self@, queen, m) ==> exists|i: int|
                    old(buffer)@.len() <= i < final(buffer)@.len() && final(buffer)@[i] == m,
            forall|i: int, j: int|
                old(buffer)@.len() <= i < j < final(buffer)@.len() ==> final(buffer)@[i]
                    != final(buffer)@[j],
    {
        let ghost p = self@;
        let ghost old_len = buffer@.len() as int;
        let us = self.side;
        let mut froms: BitBoard = self.get_bitboard(us, Piece::Pawn);
        let ghost all_froms = froms;
        proof {
            broadcast use crate::bits::lemma_bb_high;

        }
        while froms.0 != 0
            invariant
                self.boards_ok(),
                p == self@,
                us == p.side,
                buffer@.len() >= old_len,
                forall|i: int| 0 <= i < old_len ==> buffer@[i] == old(buffer)@[i],
                old_len == old(buffer)@.len(),
                forall|f: u64| #[trigger] froms.spec_has(f) ==> f < 64 && all_froms.spec_has(f),
                forall|f: u64|
                    f < 64 ==> (#[trigger] all_froms.spec_has(f) <==> p.squares[f as int] == Some(
                        (us, Piece::Pawn),
                    )),
                forall|i: int|
                    old_len <= i < buffer@.len() ==> cat_promo_push(
                        p,
                        queen,
                        #[trigger] buffer@[i],
                    ),
                forall|i: int|
                    old_len <= i < buffer@.len() ==> !froms.spec_has(
                        (#[trigger] buffer@[i]).spec_from(us).0 as u64,
                    ),
                forall|m: Move|
                    #[trigger] cat_promo_push(p, queen, m) && !froms.spec_has(
                        m.spec_from(us).0 as u64,
                    ) ==> exists|i: int| old_len <= i < buffer@.len() && buffer@[i] == m,
                forall|i: int, j: int| old_len <= i < j < buffer@.len() ==> buffer@[i] != buffer@[j],
            decreases bb_count(froms.0),
        {
            let ghost froms0 = froms;
            let f: u8 = froms.pop_first();
            let from = Square(f);
            let ghost pre = buffer@;
            proof {
                assert(all_froms.spec_has(f as u64));
            }
            self.gen_promo_pushes_from(from, queen, buffer);
            proof {
                assert forall|m: Move|
                    #[trigger] cat_promo_push(p, queen, m) && !froms.spec_has(
                        m.spec_from(us).0 as u64,
                    ) implies exists|i: int| old_len <= i < buffer@.len() && buffer@[i] == m by {
                    if m.spec_from(us).0 == f {
                        assert(cat_promo_push_from(p, from, queen, m));
                        let i = choose|i: int|
                            pre.len() <= i < buffer@.len() && #[trigger] buffer@[i] == m;
                        assert(buffer@[i] == m);
                    } else {
                        assert(froms0.spec_has(m.spec_from(us).0 as u64) == froms.spec_has(
                            m.spec_from(us).0 as u64,
                        ));
                        let i = choose|i: int| old_len <= i < pre.len() && pre[i] == m;
                        assert(buffer@[i] == m);
                    }
                }
                assert forall|i: int, j: int|
                    old_len <= i < j < buffer@.len() implies buffer@[i] != buffer@[j] by {
                    if i < pre.len() && j >= pre.len() {
                        assert(buffer@[i].spec_from(us).0 != f);
                        assert(buffer@[j].spec_from(us) == from);
                    }
                }
            }
        }
        proof {
            assert forall|m: Move|
                #[trigger] cat_promo_push(p, queen, m) implies exists|i: int|
                old_len <= i < buffer@.len() && buffer@[i] == m by {
                crate::bits::lemma_bb_empty(m.spec_from(us).0 as u64);
            }
        }
    }

    /// Appends every pseudo-legal quiet pawn push and double push,
    /// iterating the pawn board.
    pub fn gen_pawn_quiets(&self, buffer: &mut Vec<Move>)
        requires
            self.boards_ok(),
        ensures
            final(buffer)@.len() >= old(buffer)@.len(),
            forall|i: int| 0 <= i < old(buffer)@.len() ==> final(buffer)@[i] == old(buffer)@[i],
            forall|i: int|
                old(buffer)@.len() <= i < final(buffer)@.len() ==> cat_pawn_quiets(
                    self@,
                    #[trigger] final(buffer)@[i],
                ),
            forall|m: Move|
                #[trigger] cat_pawn_quiets(self@, m) ==> exists|i: int|
                    old(buffer)@.len() <= i < final(buffer)@.len() && final(buffer)@[i] == m,
            forall|i: int, j: int|
                old(buffer)@.len() <= i < j < final(buffer)@.len() ==> final(buffer)@[i]
                    != final(buffer)@[j],
    {
        let ghost p = self@;
        let ghost old_len = buffer@.len() as int;
        let us = self.side;
        let mut froms: BitBoard = self.get_bitboard(us, Piece::Pawn);
        let ghost all_froms = froms;
        proof {
            broadcast use crate::bits::lemma_bb_high;

        }
        while froms.0 != 0
            invariant
                self.boards_ok(),
                p == self@,
                us == p.side,
                buffer@.len() >= old_len,
                forall|i: int| 0 <= i < old_len ==> buffer@[i] == old(buffer)@[i],
                old_len == old(buffer)@.len(),
                forall|f: u64| #[trigger] froms.spec_has(f) ==> f < 64 && all_froms.spec_has(f),
                forall|f: u64|
                    f < 64 ==> (#[trigger] all_froms.spec_has(f) <==> p.squares[f as int] == Some(
                        (us, Piece::Pawn),
                    )),
                forall|i: int|
                    old_len <= i < buffer@.len() ==> cat_pawn_quiets(p, #[trigger] buffer@[i]),
                forall|i: int|
                    old_len <= i < buffer@.len() ==> !froms.spec_has(
                        (#[trigger] buffer@[i]).spec_from(us).0 as u64,
                    ),
                forall|m: Move|
                    #[trigger] cat_pawn_quiets(p, m) && !froms.spec_has(m.spec_from(us).0 as u64)
                        ==> exists|i: int| old_len <= i < buffer@.len() && buffer@[i] == m,
                forall|i: int, j: int| old_len <= i < j < buffer@.len() ==> buffer@[i] != buffer@[j],
            decreases bb_count(froms.0),
        {
            let ghost froms0 = froms;
            let f: u8 = froms.pop_first();
            let from = Square(f);
            let ghost pre = buffer@;
            proof {
                assert(all_froms.spec_has(f as u64));
            }
            self.gen_pawn_quiets_from(from, buffer);
            proof {
                assert forall|m: Move|
                    #[trigger] cat_pawn_quiets(p, m) && !froms.spec_has(
                        m.spec_from(us).0 as u64,
                    ) implies exists|i: int| old_len <= i < buffer@.len() && buffer@[i] == m by {
                    if m.spec_from(us).0 == f {
                        assert(cat_pawn_quiets_from(p, from, m));
                        let i = choose|i: int|
                            pre.len() <= i < buffer@.len() && #[trigger] buffer@[i] == m;
                        assert(buffer@[i] == m);
                    } else {
                        assert(froms0.spec_has(m.spec_from(us).0 as u64) == froms.spec_has(
                            m.spec_from(us).0 as u64,
                        ));
                        let i = choose|i: int| old_len <= i < pre.len() && pre[i] == m;
                        assert(buffer@[i] == m);
                    }
                }
                assert forall|i: int, j: int|
                    old_len <= i < j < buffer@.len() implies buffer@[i] != buffer@[j] by {
                    if i < pre.len() && j >= pre.len() {
                        assert(buffer@[i].spec_from(us).0 != f);
                        assert(buffer@[j].spec_from(us) == from);
                    }
                }
            }
        }
        proof {
            assert forall|m: Move|
                #[trigger] cat_pawn_quiets(p, m) implies exists|i: int|
                old_len <= i < buffer@.len() && buffer@[i] == m by {
                crate::bits::lemma_bb_empty(m.spec_from(us).0 as u64);
            }
        }
    }

    /// Appends every pseudo-legal en-passant capture: at most the
    /// two pawns beside the pushed pawn can take it.
    pub fn gen_ep(&self, buffer: &mut Vec<Move>)
        requires
            self.boards_ok(),
            crate::board::pos_ok(self@),
        ensures
            final(buffer)@.len() >= old(buffer)@.len(),
            forall|i: int| 0 <= i < old(buffer)@.len() ==> final(buffer)@[i] == old(buffer)@[i],
            forall|i: int|
                old(buffer)@.len() <= i < final(buffer)@.len() ==> cat_ep(
                    self@,
                    #[trigger] final(buffer)@[i],
                ),
            forall|m: Move|
                #[trigger] cat_ep(self@, m) ==> exists|i: int|
                    old(buffer)@.len() <= i < final(buffer)@.len() && final(buffer)@[i] == m,
            forall|i: int, j: int|
                old(buffer)@.len() <= i < j < final(buffer)@.len() ==> final(buffer)@[i]
                    != final(buffer)@[j],
    {
        let ghost p = self@;
        let ghost old_len = buffer@.len() as int;
        let us = self.side;
        let dir: i16 = match us {
            Color::White => 1,
            Color::Black => -1,
        };
        match self.ep {
            Some(e) => {
                let er: i16 = (e.0 / 8) as i16;
                let ef: i16 = (e.0 % 8) as i16;
                let fr: i16 = er - dir;
                if ef >= 1 {
                    let cand = Square((fr * 8 + ef - 1) as u8);
                    let m = Move::EnPassant { from: cand, to: e };
                    if self.is_pseudo_legal(m) {
                        buffer.push(m);
                    }
                }
                if ef <= 6 {
                    let cand = Square((fr * 8 + ef + 1) as u8);
                    let m = Move::EnPassant { from: cand, to: e };
                    if self.is_pseudo_legal(m) {
                        buffer.push(m);
                    }
                }
                proof {
                    assert forall|m: Move| #[trigger] cat_ep(p, m) implies exists|i: int|
                        old_len <= i < buffer@.len() && buffer@[i] == m by {
                        match m {
                            Move::EnPassant { from, to } => {
                                assert(to.0 == e.0);
                                let fi = from.0 as int;
                                assert(fi == sq_rank(fi) * 8 + sq_file(fi));
                                assert(sq_rank(fi) == sq_rank(e.0 as int) - pawn_dir(us));
                                assert(sq_file(fi) == sq_file(e.0 as int) - 1 || sq_file(fi)
                                    == sq_file(e.0 as int) + 1);
                                assert(buffer@[old_len] == m || buffer@[buffer@.len() - 1] == m);
                            },
                            _ => {},
                        }
                    }
                }
            },
            None => {},
        }
    }

    /// Appends the pseudo-legal castles: the right must be held,
    /// the path empty, and the king's current and passed squares
    /// unattacked.
    pub fn gen_castles(&self, buffer: &mut Vec<Move>)
        requires
            self.boards_ok(),
        ensures
            final(buffer)@.len() >= old(buffer)@.len(),
            forall|i: int| 0 <= i < old(buffer)@.len() ==> final(buffer)@[i] == old(buffer)@[i],
            forall|i: int|
                old(buffer)@.len() <= i < final(buffer)@.len() ==> cat_castle(
                    self@,
                    #[trigger] final(buffer)@[i],
                ),
            forall|m: Move|
                #[trigger] cat_castle(self@, m) ==> exists|i: int|
                    old(buffer)@.len() <= i < final(buffer)@.len() && final(buffer)@[i] == m,
            forall|i: int, j: int|
                old(buffer)@.len() <= i < j < final(buffer)@.len() ==> final(buffer)@[i]
                    != final(buffer)@[j],
    {
        let ghost p = self@;
        let ghost old_len = buffer@.len() as int;
        let us = self.side;
        let them = us.invert();
        let (e, fk, dq): (u8, u8, u8) = match us {
            Color::White => (4, 5, 3),
            Color::Black => (60, 61, 59),
        };
        if self.is_pseudo_legal(Move::KingCastle) && !self.square_attacked(Square(e), them)
            && !self.square_attacked(Square(fk), them) {
            buffer.push(Move::KingCastle);
        }
        if self.is_pseudo_legal(Move::QueenCastle) && !self.square_attacked(Square(e), them)
            && !self.square_attacked(Square(dq), them) {
            buffer.push(Move::QueenCastle);
        }
        proof {
            assert forall|m: Move| #[trigger] cat_castle(p, m) implies exists|i: int|
                old_len <= i < buffer@.len() && buffer@[i] == m by {
                if m is KingCastle {
                    assert(buffer@[old_len] == m);
                } else {
                    assert(buffer@[buffer@.len() - 1] == m);
                }
            }
        }
    }
}

/// Any pseudo-legal capture: by a piece, by a pawn, or en passant.
pub open spec fn in_capture_cats(p: Position, m: Move) -> bool {
    ||| cat_piece(p, Piece::Knight, true, m)
    ||| cat_piece(p, Piece::Bishop, true, m)
    ||| cat_piece(p, Piece::Rook, true, m)
    ||| cat_piece(p, Piece::Queen, true, m)
    ||| cat_piece(p, Piece::King, true, m)
    ||| cat_pawn_caps(p, m)
    ||| cat_ep(p, m)
}

/// Any pseudo-legal quiet-stage move: piece quiets, pawn pushes,
/// under-promotions and castles.
pub open spec fn in_quiet_cats(p: Position, m: Move) -> bool {
    ||| cat_piece(p, Piece::Knight, false, m)
    ||| cat_piece(p, Piece::Bishop, false, m)
    ||| cat_piece(p, Piece::Rook, false, m)
    ||| cat_piece(p, Piece::Queen, false, m)
    ||| cat_piece(p, Piece::King, false, m)
    ||| cat_pawn_quiets(p, m)
    ||| cat_promo_push(p, false, m)
    ||| cat_castle(p, m)
}

/// Every pseudo-legal move falls in the capture stage, is a queen
/// promotion, or falls in the quiet stage.
pub proof fn lemma_pseudo_covered(p: Position, m: Move)
    requires
        spec_pseudo_legal(p, m),
    ensures
        in_capture_cats(p, m) || cat_promo_push(p, true, m) || in_quiet_cats(p, m),
{
    match m {
        Move::Quiet { from, to } => {
            assert(p.squares[from.0 as int] matches Some((c, _)) && c == p.side);
        },
        Move::Capture { from, to, .. } => {
            assert(p.squares[from.0 as int] matches Some((c, _)) && c == p.side);
        },
        _ => {},
    }
}

impl Board {
    /// Generates the complete set of pseudo-legal moves for the
    /// side to move, appended to the caller's buffer in three
    /// categories: captures first (promotion captures and en
    /// passant included), then queen promotions, then quiet moves
    /// (castles, double pushes and under-promotions included). The
    /// returned pair marks the two category boundaries. The list
    /// is complete, duplicate-free and sound.
    #[verifier::rlimit(100)]
    #[verifier::spinoff_prover]
    pub fn generate_moves(&self, buffer: &mut Vec<Move>) -> (r: (usize, usize))
        requires
            self.wf(),
            old(buffer)@.len() < usize::MAX - 256,
        ensures
            final(buffer)@.len() >= old(buffer)@.len(),
            forall|i: int| 0 <= i < old(buffer)@.len() ==> final(buffer)@[i] == old(buffer)@[i],
            old(buffer)@.len() <= r.0 <= r.1 <= final(buffer)@.len(),
            forall|i: int|
                old(buffer)@.len() <= i < final(buffer)@.len() ==> spec_pseudo_legal(
                    self@,
                    #[trigger] final(buffer)@[i],
                ),
            forall|i: int|
                old(buffer)@.len() <= i < r.0 ==> (#[trigger] final(buffer)@[i]).spec_is_capture(),
            forall|i: int|
                r.0 <= i < r.1 ==> ((#[trigger] final(buffer)@[i]) matches Move::Promote {
                    promote,
                    ..
                } && promote == Piece::Queen),
            forall|i: int|
                r.1 <= i < final(buffer)@.len() ==> ((#[trigger] final(buffer)@[i]).spec_is_quiet()
                    || (final(buffer)@[i] matches Move::Promote { promote, .. } && promote
                    != Piece::Queen)),
            forall|m: Move|
                spec_pseudo_legal(self@, m) ==> exists|i: int|
                    old(buffer)@.len() <= i < final(buffer)@.len() && final(buffer)@[i] == m,
            forall|i: int, j: int|
                old(buffer)@.len() <= i < j < final(buffer)@.len() ==> final(buffer)@[i]
                    != final(buffer)@[j],
    {
        let ghost p = self@;
        let ghost l0 = buffer@.len() as int;
        self.gen_piece_moves(Piece::Knight, true, buffer);
        let ghost l1 = buffer@.len() as int;
        self.gen_piece_moves(Piece::Bishop, true, buffer);
        let ghost l2 = buffer@.len() as int;
        self.gen_piece_moves(Piece::Rook, true, buffer);
        let ghost l3 = buffer@.len() as int;
        self.gen_piece_moves(Piece::Queen, true, buffer);
        let ghost l4 = buffer@.len() as int;
        self.gen_piece_moves(Piece::King, true, buffer);
        let ghost l5 = buffer@.len() as int;
        self.gen_pawn_captures(buffer);
        let ghost l6 = buffer@.len() as int;
        self.gen_ep(buffer);
        let ghost l7 = buffer@.len() as int;
        let a = buffer.len();
        self.gen_promo_pushes(true, buffer);
        let ghost l8 = buffer@.len() as int;
        let b = buffer.len();
        self.gen_piece_moves(Piece::Knight, false, buffer);
        let ghost l9 = buffer@.len() as int;
        self.gen_piece_moves(Piece::Bishop, false, buffer);
        let ghost l10 = buffer@.len() as int;
        self.gen_piece_moves(Piece::Rook, false, buffer);
        let ghost l11 = buffer@.len() as int;
        self.gen_piece_moves(Piece::Queen, false, buffer);
        let ghost l12 = buffer@.len() as int;
        self.gen_piece_moves(Piece::King, false, buffer);
        let ghost l13 = buffer@.len() as int;
        self.gen_pawn_quiets(buffer);
        let ghost l14 = buffer@.len() as int;
        self.gen_promo_pushes(false, buffer);
        let ghost l15 = buffer@.len() as int;
        self.gen_castles(buffer);
        let ghost l16 = buffer@.len() as int;
        proof {
            let bf = buffer@;
            assert(forall|i: int| l0 <= i < l1 ==> cat_piece(p, Piece::Knight, true, #[trigger] bf[i]));
            assert(forall|i: int| l1 <= i < l2 ==> cat_piece(p, Piece::Bishop, true, #[trigger] bf[i]));
            assert(forall|i: int| l2 <= i < l3 ==> cat_piece(p, Piece::Rook, true, #[trigger] bf[i]));
            assert(forall|i: int| l3 <= i < l4 ==> cat_piece(p, Piece::Queen, true, #[trigger] bf[i]));
            assert(forall|i: int| l4 <= i < l5 ==> cat_piece(p, Piece::King, true, #[trigger] bf[i]));
            assert(forall|i: int| l5 <= i < l6 ==> cat_pawn_caps(p, #[trigger] bf[i]));
            assert(forall|i: int| l6 <= i < l7 ==> cat_ep(p, #[trigger] bf[i]));
            assert(forall|i: int| l7 <= i < l8 ==> cat_promo_push(p, true, #[trigger] bf[i]));
            assert(forall|i: int| l8 <= i < l9 ==> cat_piece(p, Piece::Knight, false, #[trigger] bf[i]));
            assert(forall|i: int| l9 <= i < l10 ==> cat_piece(p, Piece::Bishop, false, #[trigger] bf[i]));
            assert(forall|i: int| l10 <= i < l11 ==> cat_piece(p, Piece::Rook, false, #[trigger] bf[i]));
            assert(forall|i: int| l11 <= i < l12 ==> cat_piece(p, Piece::Queen, false, #[trigger] bf[i]));
            assert(forall|i: int| l12 <= i < l13 ==> cat_piece(p, Piece::King, false, #[trigger] bf[i]));
            assert(forall|i: int| l13 <= i < l14 ==> cat_pawn_quiets(p, #[trigger] bf[i]));
            assert(forall|i: int| l14 <= i < l15 ==> cat_promo_push(p, false, #[trigger] bf[i]));
            assert(forall|i: int| l15 <= i < l16 ==> cat_castle(p, #[trigger] bf[i]));
            assert forall|m: Move| spec_pseudo_legal(p, m) implies exists|i: int|
                l0 <= i < l16 && bf[i] == m by {
                lemma_pseudo_covered(p, m);
            }
            assert forall|i: int, j: int| l0 <= i < j < l16 implies bf[i] != bf[j] by {}
        }
        (a, b)
    }
}

/// A pseudo-legal move meets the structural conditions of its
/// application.
pub proof fn lemma_move_ok_of_pseudo(p: Position, m: Move)
    requires
        spec_pseudo_legal(p, m),
    ensures
        spec_move_ok(p, m),
{
}

/// A legal move meets the structural conditions of its
/// application.
pub proof fn lemma_move_ok_of_legal(p: Position, m: Move)
    requires
        spec_legal(p, m),
    ensures
        spec_move_ok(p, m),
{
}

/// The outcome of a position: still being played, drawn, or won.
#[derive(Clone, Copy, PartialEq, Eq, Structural, Debug)]
pub enum Status {
    Playing,
    Draw,
    Win(Color),
}

impl Status {
    /// Whether the game is still being played.
    pub fn is_playing(&self) -> (r: bool)
        ensures
            r == (*self is Playing),
    {
        matches!(self, Status::Playing)
    }
}

/// The status a board is in: `Playing` while a legal move exists
/// and no draw rule has struck; `Draw` on stalemate, the fifty-move
/// rule, threefold repetition or insufficient material; `Win(c)`
/// when `c` has delivered mate.
pub open spec fn spec_status(b: Board) -> Status {
    if exists|m: Move| #[trigger] spec_legal(b@, m) {
        if crate::board::spec_draw_state(b, 2) {
            Status::Draw
        } else {
            Status::Playing
        }
    } else {
        if b.checkers != 0u64 {
            Status::Win(b@.side.spec_invert())
        } else {
            Status::Draw
        }
    }
}


/// The set of legal moves of a position.
pub open spec fn legal_set(p: Position) -> Set<Move> {
    Set::new(|m: Move| spec_legal(p, m))
}

/// The folding step of the perft sum: add the subtree count of one
/// legal move.
pub open spec fn perft_step(p: Position, depth: nat) -> spec_fn(nat, Move) -> nat
    decreases depth, 1int,
{
    |acc: nat, m: Move| acc + spec_perft(spec_do(p, m), depth)
}

/// The number of leaves of the legal move tree at the given depth:
/// one at depth zero, else the sum over every legal move of the
/// count of the position after it.
pub open spec fn spec_perft(p: Position, depth: nat) -> nat
    decreases depth, 0int,
{
    if depth == 0 {
        1
    } else {
        legal_set(p).fold(0nat, perft_step(p, (depth - 1) as nat))
    }
}

/// The perft sum over the tail of a move list.
pub open spec fn perft_suffix(list: Seq<Move>, k: int, p: Position, depth: nat) -> nat
    decreases list.len() - k,
{
    if k < 0 || k >= list.len() {
        0
    } else {
        spec_perft(spec_do(p, list[k]), depth) + perft_suffix(list, k + 1, p, depth)
    }
}

/// Folding the set of a duplicate-free move list tail is the suffix
/// sum over the list.
proof fn lemma_fold_is_suffix_sum(list: Seq<Move>, k: int, p: Position, depth: nat)
    requires
        0 <= k <= list.len(),
        forall|i: int, j: int| 0 <= i < j < list.len() ==> list[i] != list[j],
    ensures
        list.subrange(k, list.len() as int).to_set().fold(0nat, perft_step(p, depth))
            == perft_suffix(list, k, p, depth),
    decreases list.len() - k,
{
    broadcast use vstd::seq_lib::seq_to_set_is_finite;

    let f = perft_step(p, depth);
    assert(vstd::set::fold::is_fun_commutative(f));
    if k == list.len() {
        assert(list.subrange(k, list.len() as int) =~= Seq::<Move>::empty());
        assert(list.subrange(k, list.len() as int).to_set() =~= Set::<Move>::empty()) by {
            assert(forall|m: Move| !list.subrange(k, list.len() as int).contains(m));
        }
        vstd::set::fold::lemma_fold_empty(0nat, f);
    } else {
        lemma_fold_is_suffix_sum(list, k + 1, p, depth);
        let tail = list.subrange(k + 1, list.len() as int);
        let whole = list.subrange(k, list.len() as int);
        assert(whole.to_set() =~= tail.to_set().insert(list[k])) by {
            assert forall|m: Move| whole.to_set().contains(m) implies tail.to_set().insert(
                list[k],
            ).contains(m) by {
                let i = choose|i: int| 0 <= i < whole.len() && whole[i] == m;
                if i > 0 {
                    assert(tail[i - 1] == m);
                    assert(tail.contains(m));
                }
            }
            assert forall|m: Move| tail.to_set().insert(list[k]).contains(m) implies whole.to_set()
                .contains(m) by {
                if m == list[k] {
                    assert(whole[0] == m);
                    assert(whole.contains(m));
                } else {
                    assert(tail.contains(m));
                    let i = choose|i: int| 0 <= i < tail.len() && tail[i] == m;
                    assert(whole[i + 1] == m);
                    assert(whole.contains(m));
                }
            }
        }
        assert(!tail.to_set().contains(list[k])) by {
            if tail.contains(list[k]) {
                let i = choose|i: int| 0 <= i < tail.len() && tail[i] == list[k];
                assert(list[k + 1 + i] == list[k]);
            }
        }
        vstd::set::fold::lemma_fold_insert(tail.to_set(), 0nat, f, list[k]);
    }
}

impl Board {
    /// The complete list of legal moves of the side to move; the
    /// board is left exactly as it was.
    #[verifier::rlimit(100)]
    #[verifier::spinoff_prover]
    pub fn legal_moves(&mut self) -> (r: Vec<Move>)
        requires
            old(self).wf(),
        ensures
            final(self).wf(),
            final(self)@ == old(self)@,
            final(self).history@ == old(self).history@,
            final(self).zobrist == old(self).zobrist,
            final(self).checkers == old(self).checkers,
            final(self).keys == old(self).keys,
            forall|i: int| 0 <= i < r@.len() ==> spec_legal(old(self)@, #[trigger] r@[i]),
            forall|m: Move|
                spec_legal(old(self)@, m) ==> exists|i: int| 0 <= i < r@.len() && r@[i] == m,
            forall|i: int, j: int| 0 <= i < j < r@.len() ==> r@[i] != r@[j],
    {
        let ghost p = self@;
        let mut buffer: Vec<Move> = Vec::new();
        let (_a, _b) = self.generate_moves(&mut buffer);
        let mut out: Vec<Move> = Vec::new();
        let mut i: usize = 0;
        let n = buffer.len();
        while i < n
            invariant
                self.wf(),
                self@ == p,
                self@ == old(self)@,
                self.history@ == old(self).history@,
                self.zobrist == old(self).zobrist,
                self.checkers == old(self).checkers,
                self.keys == old(self).keys,
                n == buffer@.len(),
                i <= n,
                forall|k: int| 0 <= k < n ==> spec_pseudo_legal(p, #[trigger] buffer@[k]),
                forall|k1: int, k2: int| 0 <= k1 < k2 < n ==> buffer@[k1] != buffer@[k2],
                forall|m: Move|
                    spec_pseudo_legal(p, m) ==> exists|k: int| 0 <= k < n && buffer@[k] == m,
                forall|k: int| 0 <= k < out@.len() ==> spec_legal(p, #[trigger] out@[k]),
                forall|k: int|
                    0 <= k < i ==> (spec_legal(p, #[trigger] buffer@[k]) ==> exists|j: int|
                        0 <= j < out@.len() && out@[j] == buffer@[k]),
                forall|k1: int, k2: int| 0 <= k1 < k2 < out@.len() ==> out@[k1] != out@[k2],
                forall|k: int|
                    0 <= k < out@.len() ==> exists|j: int|
                        0 <= j < i && buffer@[j] == #[trigger] out@[k],
            decreases n - i,
        {
            let m = buffer[i];
            proof {
                lemma_move_ok_of_pseudo(p, m);
            }
            let ghost out0 = out@;
            let leg = self.is_legal(m);
            if leg {
                proof {
                    assert forall|k1: int, k2: int|
                        0 <= k1 < k2 < out@.len() + 1 implies (out@.push(m))[k1] != (out@.push(
                        m,
                    ))[k2] by {
                        if k2 == out@.len() {
                            let j = choose|j: int| 0 <= j < i && buffer@[j] == out@[k1];
                            assert(buffer@[j] != buffer@[i as int]);
                        }
                    }
                }
                out.push(m);
            }
            proof {
                assert forall|k: int|
                    0 <= k <= i as int && spec_legal(p, #[trigger] buffer@[k]) implies exists|
                    j: int,
                |
                    0 <= j < out@.len() && out@[j] == buffer@[k] by {
                    if k == i as int {
                        assert(leg);
                        assert(out@[out@.len() - 1] == buffer@[k]);
                    } else {
                        let j = choose|j: int| 0 <= j < out0.len() && out0[j] == buffer@[k];
                        assert(out@[j] == buffer@[k]);
                    }
                }
            }
            i = i + 1;
        }
        out
    }

    /// The status of the position: Playing, Draw or Win.
    pub fn status(&mut self) -> (r: Status)
        requires
            old(self).wf(),
        ensures
            final(self).wf(),
            final(self)@ == old(self)@,
            final(self).history@ == old(self).history@,
            final(self).zobrist == old(self).zobrist,
            final(self).checkers == old(self).checkers,
            final(self).keys == old(self).keys,
            r == spec_status(*old(self)),
    {
        let moves = self.legal_moves();
        if moves.len() > 0 {
            proof {
                assert(spec_legal(old(self)@, moves@[0]));
            }
            if self.is_rule_draw() {
                Status::Draw
            } else {
                Status::Playing
            }
        } else {
            proof {
                if exists|m: Move| #[trigger] spec_legal(old(self)@, m) {
                    let m = choose|m: Move| #[trigger] spec_legal(old(self)@, m);
                    assert(exists|i: int| 0 <= i < moves@.len() && moves@[i] == m);
                }
            }
            if self.in_check() {
                Status::Win(self.get_side_to_move().invert())
            } else {
                Status::Draw
            }
        }
    }

    /// Counts the leaves of the legal move tree at the given
    /// depth, by make and unmake: exactly `spec_perft` leaves. The
    /// board is left exactly as it was.
    pub fn perft(&mut self, depth: u8) -> (r: u64)
        requires
            old(self).wf(),
            spec_perft(old(self)@, depth as nat) <= u64::MAX,
        ensures
            final(self).wf(),
            final(self)@ == old(self)@,
            final(self).history@ == old(self).history@,
            final(self).zobrist == old(self).zobrist,
            final(self).checkers == old(self).checkers,
            final(self).keys == old(self).keys,
            r == spec_perft(old(self)@, depth as nat),
        decreases depth,
    {
        if depth == 0 {
            return 1;
        }
        let ghost b0 = *self;
        let ghost p = self@;
        let ghost d1 = (depth - 1) as nat;
        let moves = self.legal_moves();
        let ghost list = moves@;
        proof {
            broadcast use vstd::seq_lib::seq_to_set_is_finite;

            assert(legal_set(p) =~= list.to_set()) by {
                assert forall|m: Move| legal_set(p).contains(m) implies list.to_set().contains(
                    m,
                ) by {
                    let i = choose|i: int| 0 <= i < list.len() && list[i] == m;
                    assert(list.contains(m));
                }
                assert forall|m: Move| list.to_set().contains(m) implies legal_set(p).contains(
                    m,
                ) by {
                    assert(list.contains(m));
                    let i = choose|i: int| 0 <= i < list.len() && list[i] == m;
                }
            }
            lemma_fold_is_suffix_sum(list, 0, p, d1);
            assert(list.subrange(0, list.len() as int) =~= list);
            assert(spec_perft(p, depth as nat) == perft_suffix(list, 0, p, d1));
        }
        let mut total: u64 = 0;
        let mut i: usize = 0;
        let n = moves.len();
        while i < n
            invariant
                self.wf(),
                self@ == b0@,
                self.history@ == b0.history@,
                self.zobrist == b0.zobrist,
                self.checkers == b0.checkers,
                self.keys == b0.keys,
                b0@ == old(self)@,
                b0.history@ == old(self).history@,
                b0.zobrist == old(self).zobrist,
                b0.checkers == old(self).checkers,
                b0.keys == old(self).keys,
                p == b0@,
                n == moves@.len(),
                list == moves@,
                i <= n,
                depth >= 1,
                d1 == (depth - 1) as nat,
                forall|k: int| 0 <= k < n ==> spec_legal(p, #[trigger] moves@[k]),
                total + perft_suffix(list, i as int, p, d1) == perft_suffix(list, 0, p, d1),
                perft_suffix(list, 0, p, d1) == spec_perft(p, depth as nat),
                spec_perft(p, depth as nat) <= u64::MAX,
            decreases n - i,
        {
            let m = moves[i];
            proof {
                lemma_move_ok_of_pseudo(p, m);
                assert(perft_suffix(list, i as int, p, d1) == spec_perft(spec_do(p, list[i as int]), d1)
                    + perft_suffix(list, i as int + 1, p, d1));
            }
            let ghost pre = *self;
            self.do_move(m);
            proof {
                crate::board::lemma_do_then_undoable(pre, *self, m);
            }
            let sub = self.perft(depth - 1);
            self.undo_move(m);
            proof {
                assert(self.history@ =~= pre.history@);
            }
            total = total + sub;
            i = i + 1;
        }
        proof {
            assert(perft_suffix(list, n as int, p, d1) == 0);
        }
        total
    }
}

} // verus!
