//! The search: alpha-beta negamax with quiescence refinement,
//! staged move picking, transposition-table probes and an
//! aspiration-window iterative-deepening driver, with a cooperative
//! node budget in place of a stop flag.

use vstd::prelude::*;
use crate::board::{spec_draw_state, spec_move_ok, Board, Position};
use crate::eval::{eval, spec_eval};
use crate::movegen::{lemma_move_ok_of_pseudo, spec_legal};
use crate::movepick::MovePicker;
use crate::moves::Move;
use crate::params::{DELTA, MATE_VALUE, MAX_DEPTH, SCORE_INF};
use crate::piece::Piece;
use crate::table::{TableEntry, TableEntryFlag, TranspositionTable};

verus! {

/// A score clamped into the representable window.
pub open spec fn clamp_score(x: int) -> int {
    if x < -SCORE_INF {
        -SCORE_INF as int
    } else if x > SCORE_INF {
        SCORE_INF as int
    } else {
        x
    }
}

/// Whether the side to move's pawn stands on file `f` of its
/// pre-promotion rank.
pub open spec fn pawn_at_pre_promo(p: Position, f: int) -> bool {
    p.squares[(match p.side {
        crate::color::Color::White => 6int,
        crate::color::Color::Black => 1int,
    }) * 8 + f] == Some((p.side, Piece::Pawn))
}

/// Whether the side to move has a pawn on its pre-promotion rank.
pub open spec fn pre_promo_pawn(p: Position) -> bool {
    exists|f: int| 0 <= f < 8 && #[trigger] pawn_at_pre_promo(p, f)
}

/// The delta-pruning margin of a position: a queen's worth, plus
/// the promotion gain when a pawn stands one step from promoting.
pub open spec fn spec_big_delta(p: Position) -> int {
    crate::params::spec_value_of(Piece::Queen) + if pre_promo_pawn(p) {
        crate::params::spec_value_of(Piece::Queen) - crate::params::spec_value_of(Piece::Pawn)
    } else {
        0
    }
}

/// The larger of two scores.
pub open spec fn max_score(a: int, b: int) -> int {
    if a >= b {
        a
    } else {
        b
    }
}

/// The aspiration window widths: 50, 100 and 400 centipawns, then
/// the full window.
pub open spec fn spec_aspiration_width(i: int) -> int {
    if i == 0 {
        50
    } else if i == 1 {
        100
    } else if i == 2 {
        400
    } else {
        SCORE_INF as int
    }
}

/// The aspiration window widths, widened on a fail-high or
/// fail-low; the last reopens the window fully.
pub fn aspiration_width(i: usize) -> (r: i32)
    requires
        i < 4,
    ensures
        r == spec_aspiration_width(i as int),
        50 <= r <= SCORE_INF,
{
    if i == 0 {
        50
    } else if i == 1 {
        100
    } else if i == 2 {
        400
    } else {
        SCORE_INF
    }
}

/// A thread-local search: the board it explores, its scratch move
/// buffer, the current stack ply, the best root move found, and
/// the node budget that stops it.
pub struct Search {
    /// The board being searched; restored after every probe.
    pub board: Board,
    /// The shared scratch move buffer, reused across nodes.
    pub buffer: Vec<Move>,
    /// The current stack ply.
    pub ply: u8,
    /// The best move latched at the root.
    pub best_move: Move,
    /// The deepest fully completed iteration of the session.
    pub completed: u8,
    /// Nodes visited in this session.
    pub nodes: u64,
    /// The node budget: the search unwinds once it is spent.
    pub node_limit: u64,
}

impl Search {
    /// A search is usable while its board is consistent.
    pub open spec fn wf(&self) -> bool {
        self.board.wf()
    }

    /// Creates a search over a board, with nothing searched yet.
    pub fn new(board: Board, node_limit: u64) -> (r: Search)
        requires
            board.wf(),
        ensures
            r.wf(),
            r.board == board,
            r.best_move is Null,
            r.ply == 0,
            r.completed == 0,
            r.nodes == 0,
            r.node_limit == node_limit,
            r.buffer@ == Seq::<Move>::empty(),
    {
        Search {
            board,
            buffer: Vec::new(),
            ply: 0,
            best_move: Move::Null,
            completed: 0,
            nodes: 0,
            node_limit,
        }
    }

    /// Makes one move, searches the child node with the negated
    /// window, and takes the move back; the state comes back
    /// exactly as it went in.
    fn search_child(
        &mut self,
        tt: &mut TranspositionTable,
        m: Move,
        alpha: i32,
        beta: i32,
        depth: u8,
        quiesce: bool,
    ) -> (r: i32)
        requires
            old(self).wf(),
            old(tt).wf(),
            spec_move_ok(old(self).board@, m),
            -SCORE_INF <= alpha < beta <= SCORE_INF,
            old(self).ply < MAX_DEPTH,
        ensures
            final(self).wf(),
            final(tt).wf(),
            final(self).board@ == old(self).board@,
            final(self).board.history@ == old(self).board.history@,
            final(self).board.zobrist == old(self).board.zobrist,
            final(self).board.checkers == old(self).board.checkers,
            final(self).board.keys == old(self).board.keys,
            final(self).buffer@ == old(self).buffer@,
            final(self).ply == old(self).ply,
            final(self).best_move == old(self).best_move,
            final(self).completed == old(self).completed,
            final(self).nodes >= old(self).nodes,
            final(self).node_limit == old(self).node_limit,
            -SCORE_INF <= r <= SCORE_INF,
        decreases MAX_DEPTH - old(self).ply, 0int,
    {
        let ghost pre = self.board;
        self.board.do_move(m);
        proof {
            crate::board::lemma_do_then_undoable(pre, self.board, m);
        }
        self.ply = self.ply + 1;
        let neg = if quiesce {
            self.quiescence(-beta, -alpha)
        } else {
            self.alpha_beta(tt, -beta, -alpha, depth)
        };
        self.ply = self.ply - 1;
        self.board.undo_move(m);
        proof {
            assert(self.board.history@ =~= pre.history@);
        }
        -neg
    }

    /// The alpha-beta negamax algorithm: probes the table, extends
    /// checks, iterates the picker, prunes on beta, and records the
    /// node's bound in the table. The board comes back exactly as
    /// it went in, and the contract pins the leaf cases: a spent
    /// budget and a pseudo-draw return 0, the ply cap returns the
    /// clamped evaluation, a usable table hit returns its score,
    /// and a position without a legal move returns the mate score
    /// in check and 0 stalemated.
    #[verifier::rlimit(100)]
    #[verifier::spinoff_prover]
    pub fn alpha_beta(
        &mut self,
        tt: &mut TranspositionTable,
        alpha: i32,
        beta: i32,
        depth: u8,
    ) -> (r: i32)
        requires
            old(self).wf(),
            old(tt).wf(),
            -SCORE_INF <= alpha < beta <= SCORE_INF,
        ensures
            final(self).wf(),
            final(tt).wf(),
            final(self).board@ == old(self).board@,
            final(self).board.history@ == old(self).board.history@,
            final(self).board.zobrist == old(self).board.zobrist,
            final(self).board.checkers == old(self).board.checkers,
            final(self).board.keys == old(self).board.keys,
            final(self).buffer@ == old(self).buffer@,
            final(self).ply == old(self).ply,
            final(self).completed == old(self).completed,
            final(self).nodes >= old(self).nodes,
            final(self).node_limit == old(self).node_limit,
            -SCORE_INF <= r <= SCORE_INF,
            final(self).best_move is Null || spec_move_ok(old(self).board@, final(self).best_move)
                || final(self).best_move == old(self).best_move,
            old(self).ply > 0 ==> final(self).best_move == old(self).best_move,
            final(self).best_move is Null ==> old(self).best_move is Null,
            depth == 0 ==> final(tt).entries@ == old(tt).entries@,
            old(self).nodes >= old(self).node_limit ==> r == 0 && final(tt).entries@
                == old(tt).entries@,
            spec_draw_state(old(self).board, 1) ==> r == 0,
            old(self).nodes < old(self).node_limit && !spec_draw_state(old(self).board, 1) && old(
                self,
            ).ply >= MAX_DEPTH ==> r == clamp_score(spec_eval(old(self).board@)),
            depth == 0 && old(self).nodes < old(self).node_limit && !spec_draw_state(
                old(self).board,
                1,
            ) && old(self).ply < MAX_DEPTH && clamp_score(spec_eval(old(self).board@)) >= beta ==> r
                == beta,
            depth == 0 && old(self).nodes < old(self).node_limit && !spec_draw_state(
                old(self).board,
                1,
            ) && old(self).ply < MAX_DEPTH && clamp_score(spec_eval(old(self).board@)) < beta
                && clamp_score(spec_eval(old(self).board@)) < alpha - spec_big_delta(
                old(self).board@,
            ) ==> r == alpha,
            (depth >= 1 && old(self).nodes < old(self).node_limit && !spec_draw_state(
                old(self).board,
                1,
            ) && old(self).ply < MAX_DEPTH && old(self).ply > 0) ==> (old(tt).spec_probe(
                old(self).board.zobrist,
                alpha as int,
                beta as int,
                depth,
            ) matches Some((m2, s2)) ==> r == s2),
            (depth >= 1 && old(self).nodes < old(self).node_limit && !spec_draw_state(
                old(self).board,
                1,
            ) && old(self).ply == 0) ==> (old(tt).spec_probe(
                old(self).board.zobrist,
                alpha as int,
                beta as int,
                depth,
            ) matches Some((m2, s2)) ==> (spec_move_ok(old(self).board@, m2) ==> r == s2
                && final(self).best_move == m2)),
            (old(self).ply == 0 && depth >= 1 && final(self).nodes < old(self).node_limit
                && !spec_draw_state(old(self).board, 1) && old(self).buffer@.len() < 1048576 && (
            exists|m: Move| #[trigger] spec_legal(old(self).board@, m)))
                ==> !(final(self).best_move is Null) && spec_move_ok(
                old(self).board@,
                final(self).best_move,
            ),
            (depth >= 1 && old(self).nodes < old(self).node_limit && !spec_draw_state(
                old(self).board,
                1,
            ) && old(self).ply < MAX_DEPTH && old(tt).spec_probe(
                old(self).board.zobrist,
                alpha as int,
                beta as int,
                depth,
            ) is None && old(self).buffer@.len() < 1048576 && (forall|m: Move|
                !spec_legal(old(self).board@, m))) ==> r == (if old(self).board.checkers != 0u64 {
                -MATE_VALUE + old(self).ply as int
            } else {
                0int
            }),
        decreases MAX_DEPTH - old(self).ply, 2int,
    {
        if depth == 0 {
            let r = self.quiescence(alpha, beta);
            return r;
        }
        if self.nodes >= self.node_limit {
            return 0;
        }
        self.nodes = self.nodes + 1;
        if self.board.is_pseudo_draw() {
            return 0;
        }
        if self.ply >= MAX_DEPTH {
            let e = eval(&self.board);
            return if e < -SCORE_INF {
                -SCORE_INF
            } else if e > SCORE_INF {
                SCORE_INF
            } else {
                e
            };
        }
        match tt.probe(self.board.zobrist, alpha, beta, depth) {
            Some((mv, score)) => {
                proof {
                    assert(-SCORE_INF <= score <= SCORE_INF);
                }
                if self.ply > 0 {
                    return score;
                }
                if self.board.is_pseudo_legal(mv) {
                    self.best_move = mv;
                    return score;
                }
                // The stored move fits another position: the root
                // treats the hit as a miss and searches.
            },
            None => {},
        }
        if self.buffer.len() >= 1048576 {
            return 0;
        }
        let in_check = self.board.in_check();
        let child_depth: u8 = if in_check {
            depth
        } else {
            depth - 1
        };
        let ghost p0 = self.board@;
        let ghost b0 = self.board;
        let ghost buf0 = self.buffer@;
        let tt_move: Move = match tt.probe_move(self.board.zobrist) {
            Some(mv) => mv,
            None => Move::Null,
        };
        let mut picker = MovePicker::new(&self.board, tt_move, &mut self.buffer);
        let pick_start = picker.start;
        let mut alpha_mut = alpha;
        let mut best_score: i32 = -SCORE_INF;
        let mut best_found: Move = Move::Null;
        let mut move_count: u64 = 0;
        loop
            invariant_except_break
                p0 == old(self).board@,
                b0 == old(self).board,
                buf0 == old(self).buffer@,
                self.board.wf(),
                self.board@ == p0,
                self.board.history@ == b0.history@,
                self.board.zobrist == b0.zobrist,
                self.board.checkers == b0.checkers,
                self.board.keys == b0.keys,
                self.buffer@.len() >= buf0.len(),
                forall|i: int| 0 <= i < buf0.len() ==> self.buffer@[i] == buf0[i],
                picker.wf(p0, self.buffer@),
                pick_start == picker.start,
                buf0.len() == pick_start,
                self.ply == old(self).ply,
                self.ply < MAX_DEPTH,
                tt.wf(),
                -SCORE_INF <= alpha,
                beta <= SCORE_INF,
                alpha <= alpha_mut < beta,
                -SCORE_INF <= best_score <= SCORE_INF,
                best_found is Null || spec_move_ok(p0, best_found),
                depth >= 1,
                old(self).nodes < old(self).node_limit,
                !spec_draw_state(old(self).board, 1),
                (old(tt).spec_probe(
                    old(self).board.zobrist,
                    alpha as int,
                    beta as int,
                    depth,
                ) matches Some((m2, s2)) ==> old(self).ply == 0 && !spec_move_ok(
                    old(self).board@,
                    m2,
                )),
                self.completed == old(self).completed,
                self.nodes >= old(self).nodes,
                self.node_limit == old(self).node_limit,
                self.best_move is Null || spec_move_ok(p0, self.best_move) || self.best_move
                    == old(self).best_move,
                self.best_move is Null ==> old(self).best_move is Null,
                old(self).ply > 0 ==> self.best_move == old(self).best_move,
                (forall|m: Move| !spec_legal(p0, m)) ==> (move_count == 0 && alpha_mut == alpha
                    && best_found is Null),
                move_count > 0 ==> !(best_found is Null),
                move_count == 0 ==> alpha_mut == alpha,
                move_count == 0 && picker.stage >= 2 ==> (forall|j: int|
                    picker.start <= j < picker.cap_end ==> !spec_legal(
                        p0,
                        #[trigger] self.buffer@[j],
                    )),
                move_count == 0 && picker.stage >= 3 ==> (forall|j: int|
                    picker.cap_end <= j < picker.promo_end ==> !spec_legal(
                        p0,
                        #[trigger] self.buffer@[j],
                    )),
                move_count == 0 && picker.stage >= 4 ==> (forall|j: int|
                    picker.promo_end <= j < picker.quiet_end ==> !spec_legal(
                        p0,
                        #[trigger] self.buffer@[j],
                    )),
            ensures
                p0 == old(self).board@,
                b0 == old(self).board,
                buf0 == old(self).buffer@,
                self.board.wf(),
                self.board@ == p0,
                self.board.history@ == b0.history@,
                self.board.zobrist == b0.zobrist,
                self.board.checkers == b0.checkers,
                self.board.keys == b0.keys,
                self.buffer@.len() >= buf0.len(),
                forall|i: int| 0 <= i < buf0.len() ==> self.buffer@[i] == buf0[i],
                buf0.len() == pick_start,
                self.ply == old(self).ply,
                tt.wf(),
                -SCORE_INF <= alpha,
                beta <= SCORE_INF,
                alpha <= alpha_mut < beta,
                -SCORE_INF <= best_score <= SCORE_INF,
                best_found is Null || spec_move_ok(p0, best_found),
                old(self).nodes < old(self).node_limit,
                !spec_draw_state(old(self).board, 1),
                (old(tt).spec_probe(
                    old(self).board.zobrist,
                    alpha as int,
                    beta as int,
                    depth,
                ) matches Some((m2, s2)) ==> old(self).ply == 0 && !spec_move_ok(
                    old(self).board@,
                    m2,
                )),
                self.completed == old(self).completed,
                self.nodes >= old(self).nodes,
                self.node_limit == old(self).node_limit,
                self.best_move is Null || spec_move_ok(p0, self.best_move) || self.best_move
                    == old(self).best_move,
                self.best_move is Null ==> old(self).best_move is Null,
                old(self).ply > 0 ==> self.best_move == old(self).best_move,
                (forall|m: Move| !spec_legal(p0, m)) ==> (move_count == 0 && alpha_mut == alpha
                    && best_found is Null),
                move_count > 0 ==> !(best_found is Null),
                move_count == 0 ==> alpha_mut == alpha,
                move_count == 0 && picker.stage >= 2 ==> (forall|j: int|
                    picker.start <= j < picker.cap_end ==> !spec_legal(
                        p0,
                        #[trigger] self.buffer@[j],
                    )),
                move_count == 0 && picker.stage >= 3 ==> (forall|j: int|
                    picker.cap_end <= j < picker.promo_end ==> !spec_legal(
                        p0,
                        #[trigger] self.buffer@[j],
                    )),
                move_count == 0 && picker.stage >= 4 ==> (forall|j: int|
                    picker.promo_end <= j < picker.quiet_end ==> !spec_legal(
                        p0,
                        #[trigger] self.buffer@[j],
                    )),
                picker.wf(p0, self.buffer@),
                pick_start == picker.start,
                picker.stage >= 4,
                move_count == 0 ==> (forall|j: int|
                    picker.start <= j < picker.quiet_end ==> !spec_legal(
                        p0,
                        #[trigger] self.buffer@[j],
                    )),
            decreases 5 - picker.stage,
        {
            let ghost pk0 = picker;
            let range = picker.next();
            match range {
                None => {
                    proof {
                        if move_count == 0 {
                            assert forall|j: int|
                                picker.start <= j < picker.quiet_end implies !spec_legal(
                                p0,
                                #[trigger] self.buffer@[j],
                            ) by {
                                if j < picker.cap_end {
                                    if pk0.stage >= 2 {
                                    } else {
                                        assert(pk0.stage_range(1).0 >= pk0.stage_range(1).1);
                                    }
                                } else if j < picker.promo_end {
                                    if pk0.stage >= 3 {
                                    } else {
                                        assert(pk0.stage_range(2).0 >= pk0.stage_range(2).1);
                                    }
                                } else {
                                    if pk0.stage >= 4 {
                                    } else {
                                        assert(pk0.stage_range(3).0 >= pk0.stage_range(3).1);
                                    }
                                }
                            }
                        }
                    }
                    break ;
                },
                Some((lo, hi)) => {
                    proof {
                        if move_count == 0 {
                            if picker.stage >= 3 {
                                assert forall|j: int|
                                    picker.start <= j < picker.cap_end implies !spec_legal(
                                    p0,
                                    #[trigger] self.buffer@[j],
                                ) by {
                                    if pk0.stage >= 2 {
                                    } else {
                                        assert(pk0.stage_range(1).0 >= pk0.stage_range(1).1);
                                    }
                                }
                            }
                            if picker.stage >= 4 {
                                assert forall|j: int|
                                    picker.cap_end <= j < picker.promo_end implies !spec_legal(
                                    p0,
                                    #[trigger] self.buffer@[j],
                                ) by {
                                    if pk0.stage >= 3 {
                                    } else {
                                        assert(pk0.stage_range(2).0 >= pk0.stage_range(2).1);
                                    }
                                }
                            }
                        }
                    }
                    let mut i = lo;
                    while i < hi
                        invariant
                            p0 == old(self).board@,
                            b0 == old(self).board,
                            buf0 == old(self).buffer@,
                            self.board.wf(),
                            self.board@ == p0,
                            self.board.history@ == b0.history@,
                            self.board.zobrist == b0.zobrist,
                            self.board.checkers == b0.checkers,
                            self.board.keys == b0.keys,
                            self.buffer@.len() >= buf0.len(),
                            forall|i2: int| 0 <= i2 < buf0.len() ==> self.buffer@[i2] == buf0[i2],
                            picker.wf(p0, self.buffer@),
                            pick_start == picker.start,
                            buf0.len() == pick_start,
                            lo <= i <= hi,
                            picker.start <= lo,
                            hi <= picker.end,
                            self.ply == old(self).ply,
                            self.ply < MAX_DEPTH,
                            tt.wf(),
                            -SCORE_INF <= alpha,
                            beta <= SCORE_INF,
                            alpha <= alpha_mut < beta,
                            -SCORE_INF <= best_score <= SCORE_INF,
                            best_found is Null || spec_move_ok(p0, best_found),
                            depth >= 1,
                            old(self).nodes < old(self).node_limit,
                            !spec_draw_state(old(self).board, 1),
                            (old(tt).spec_probe(
                                old(self).board.zobrist,
                                alpha as int,
                                beta as int,
                                depth,
                            ) matches Some((m2, s2)) ==> old(self).ply == 0 && !spec_move_ok(
                                old(self).board@,
                                m2,
                            )),
                            self.completed == old(self).completed,
                            self.nodes >= old(self).nodes,
                            self.node_limit == old(self).node_limit,
                            self.best_move is Null || spec_move_ok(p0, self.best_move)
                                || self.best_move == old(self).best_move,
                            self.best_move is Null ==> old(self).best_move is Null,
                            old(self).ply > 0 ==> self.best_move == old(self).best_move,
                            (forall|m: Move| !spec_legal(p0, m)) ==> (move_count == 0 && alpha_mut
                                == alpha && best_found is Null),
                            1 <= picker.stage <= 4,
                            (lo as int, hi as int) == picker.stage_range(picker.stage as int - 1),
                            move_count > 0 ==> !(best_found is Null),
                            move_count == 0 ==> alpha_mut == alpha,
                            move_count == 0 && picker.stage >= 3 ==> (forall|j: int|
                                picker.start <= j < picker.cap_end ==> !spec_legal(
                                    p0,
                                    #[trigger] self.buffer@[j],
                                )),
                            move_count == 0 && picker.stage >= 4 ==> (forall|j: int|
                                picker.cap_end <= j < picker.promo_end ==> !spec_legal(
                                    p0,
                                    #[trigger] self.buffer@[j],
                                )),
                            move_count == 0 && picker.stage - 1 == 1 ==> (forall|j: int|
                                lo <= j < i ==> !spec_legal(p0, #[trigger] self.buffer@[j])),
                            move_count == 0 && picker.stage - 1 == 2 ==> (forall|j: int|
                                lo <= j < i ==> !spec_legal(p0, #[trigger] self.buffer@[j])),
                            move_count == 0 && picker.stage - 1 == 3 ==> (forall|j: int|
                                lo <= j < i ==> !spec_legal(p0, #[trigger] self.buffer@[j])),
                        decreases hi - i,
                    {
                        let m = self.buffer[i];
                        proof {
                            lemma_move_ok_of_pseudo(p0, m);
                        }
                        if self.board.is_legal(m) {
                            proof {
                                assert(spec_legal(p0, m));
                            }
                            let score = self.search_child(
                                tt,
                                m,
                                alpha_mut,
                                beta,
                                child_depth,
                                false,
                            );
                            if self.nodes >= self.node_limit {
                                self.buffer.truncate(pick_start);
                                proof {
                                    assert(self.buffer@ =~= buf0);
                                }
                                return 0;
                            }
                            move_count = if move_count < u64::MAX {
                                move_count + 1
                            } else {
                                move_count
                            };
                            if score > best_score || best_found.is_none() {
                                best_score = score;
                                best_found = m;
                                if score > alpha_mut {
                                    if score >= beta {
                                        tt.insert(
                                            TableEntry {
                                                zobrist: self.board.zobrist,
                                                mv: m,
                                                score: beta,
                                                age: self.board.fullmove,
                                                depth,
                                                flag: TableEntryFlag::Beta,
                                            },
                                        );
                                        if self.ply == 0 {
                                            self.best_move = m;
                                        }
                                        self.buffer.truncate(pick_start);
                                        proof {
                                            assert(self.buffer@ =~= buf0);
                                        }
                                        return beta;
                                    }
                                    alpha_mut = score;
                                }
                            }
                        }
                        i = i + 1;
                    }
                },
            }
        }
        proof {
            if move_count == 0 {
                assert forall|m: Move| !(#[trigger] spec_legal(p0, m)) by {
                    if spec_legal(p0, m) {
                        let i2 = choose|i2: int|
                            picker.start <= i2 < picker.quiet_end && self.buffer@[i2] == m;
                        assert(!spec_legal(p0, self.buffer@[i2]));
                    }
                }
            }
        }
        self.buffer.truncate(pick_start);
        proof {
            assert(self.buffer@ =~= buf0);
        }
        if move_count == 0 {
            return if in_check {
                -MATE_VALUE + (self.ply as i32)
            } else {
                0
            };
        }
        match best_found {
            Move::Null => {},
            _ => {
                if alpha_mut != alpha {
                    tt.insert(
                        TableEntry {
                            zobrist: self.board.zobrist,
                            mv: best_found,
                            score: best_score,
                            age: self.board.fullmove,
                            depth,
                            flag: TableEntryFlag::Exact,
                        },
                    );
                } else {
                    tt.insert(
                        TableEntry {
                            zobrist: self.board.zobrist,
                            mv: best_found,
                            score: alpha_mut,
                            age: self.board.fullmove,
                            depth,
                            flag: TableEntryFlag::Alpha,
                        },
                    );
                }
                if self.ply == 0 {
                    self.best_move = best_found;
                }
            },
        }
        alpha_mut
    }

    /// The quiescence search: stand pat on the static evaluation,
    /// then resolve the captures, with delta pruning. The contract
    /// pins every leaf case: a spent budget and a pseudo-draw
    /// return 0; the ply cap returns the clamped evaluation; a
    /// stand-pat at or above beta fails high with beta; a stand-pat
    /// under the delta margin prunes the node with alpha; otherwise
    /// the result lies between the raised alpha and beta.
    #[verifier::rlimit(100)]
    #[verifier::spinoff_prover]
    pub fn quiescence(&mut self, alpha: i32, beta: i32) -> (r: i32)
        requires
            old(self).wf(),
            -SCORE_INF <= alpha < beta <= SCORE_INF,
        ensures
            final(self).wf(),
            final(self).board@ == old(self).board@,
            final(self).board.history@ == old(self).board.history@,
            final(self).board.zobrist == old(self).board.zobrist,
            final(self).board.checkers == old(self).board.checkers,
            final(self).board.keys == old(self).board.keys,
            final(self).buffer@ == old(self).buffer@,
            final(self).ply == old(self).ply,
            final(self).best_move == old(self).best_move,
            final(self).completed == old(self).completed,
            final(self).nodes >= old(self).nodes,
            final(self).node_limit == old(self).node_limit,
            -SCORE_INF <= r <= SCORE_INF,
            old(self).nodes >= old(self).node_limit ==> r == 0,
            spec_draw_state(old(self).board, 1) ==> r == 0,
            old(self).nodes < old(self).node_limit && !spec_draw_state(old(self).board, 1) && old(
                self,
            ).ply >= MAX_DEPTH ==> r == clamp_score(spec_eval(old(self).board@)),
            old(self).nodes < old(self).node_limit && !spec_draw_state(old(self).board, 1) && old(
                self,
            ).ply < MAX_DEPTH && clamp_score(spec_eval(old(self).board@)) >= beta ==> r == beta,
            old(self).nodes < old(self).node_limit && !spec_draw_state(old(self).board, 1) && old(
                self,
            ).ply < MAX_DEPTH && clamp_score(spec_eval(old(self).board@)) < beta && clamp_score(
                spec_eval(old(self).board@),
            ) < alpha - spec_big_delta(old(self).board@) ==> r == alpha,
            (old(self).nodes < old(self).node_limit && !spec_draw_state(old(self).board, 1) && old(
                self,
            ).ply < MAX_DEPTH && clamp_score(spec_eval(old(self).board@)) < beta && clamp_score(
                spec_eval(old(self).board@),
            ) >= alpha - spec_big_delta(old(self).board@) && final(self).nodes < old(
                self,
            ).node_limit) ==> (max_score(alpha as int, clamp_score(spec_eval(old(self).board@)))
                <= r <= beta),
        decreases MAX_DEPTH - old(self).ply, 1int,
    {
        if self.nodes >= self.node_limit {
            return 0;
        }
        self.nodes = self.nodes + 1;
        if self.board.is_pseudo_draw() {
            return 0;
        }
        let e = eval(&self.board);
        let stand_pat: i32 = if e < -SCORE_INF {
            -SCORE_INF
        } else if e > SCORE_INF {
            SCORE_INF
        } else {
            e
        };
        if self.ply >= MAX_DEPTH {
            return stand_pat;
        }
        if stand_pat >= beta {
            return beta;
        }
        let may_promote = self.side_pawn_on_pre_promo_rank();
        let big_delta: i32 = if may_promote {
            crate::params::value_of(Piece::Queen) + (crate::params::value_of(Piece::Queen)
                - crate::params::value_of(Piece::Pawn))
        } else {
            crate::params::value_of(Piece::Queen)
        };
        if stand_pat < alpha - big_delta {
            return alpha;
        }
        let mut alpha_mut = alpha;
        if stand_pat > alpha_mut {
            alpha_mut = stand_pat;
        }
        if self.buffer.len() >= 1048576 {
            return alpha_mut;
        }
        let ghost p0 = self.board@;
        let ghost b0 = self.board;
        let ghost buf0 = self.buffer@;
        let mut picker = MovePicker::new(&self.board, Move::Null, &mut self.buffer);
        let pick_start = picker.start;
        loop
            invariant_except_break
                p0 == old(self).board@,
                b0 == old(self).board,
                buf0 == old(self).buffer@,
                self.board.wf(),
                self.board@ == p0,
                self.board.history@ == b0.history@,
                self.board.zobrist == b0.zobrist,
                self.board.checkers == b0.checkers,
                self.board.keys == b0.keys,
                self.buffer@.len() >= buf0.len(),
                forall|i: int| 0 <= i < buf0.len() ==> self.buffer@[i] == buf0[i],
                picker.wf(p0, self.buffer@),
                pick_start == picker.start,
                buf0.len() == pick_start,
                self.ply == old(self).ply,
                self.ply < MAX_DEPTH,
                -SCORE_INF <= alpha,
                beta <= SCORE_INF,
                -SCORE_INF <= stand_pat <= SCORE_INF,
                stand_pat as int == clamp_score(spec_eval(p0)),
                old(self).nodes < old(self).node_limit,
                !spec_draw_state(old(self).board, 1),
                stand_pat as int >= alpha - spec_big_delta(p0),
                self.completed == old(self).completed,
                alpha <= alpha_mut < beta,
                alpha_mut >= stand_pat,
                self.nodes >= old(self).nodes,
                self.node_limit == old(self).node_limit,
                self.best_move == old(self).best_move,
            ensures
                p0 == old(self).board@,
                b0 == old(self).board,
                buf0 == old(self).buffer@,
                self.board.wf(),
                self.board@ == p0,
                self.board.history@ == b0.history@,
                self.board.zobrist == b0.zobrist,
                self.board.checkers == b0.checkers,
                self.board.keys == b0.keys,
                self.buffer@.len() >= buf0.len(),
                forall|i: int| 0 <= i < buf0.len() ==> self.buffer@[i] == buf0[i],
                buf0.len() == pick_start,
                self.ply == old(self).ply,
                -SCORE_INF <= alpha,
                beta <= SCORE_INF,
                alpha <= alpha_mut < beta,
                alpha_mut >= stand_pat,
                stand_pat as int == clamp_score(spec_eval(p0)),
                old(self).nodes < old(self).node_limit,
                !spec_draw_state(old(self).board, 1),
                stand_pat as int >= alpha - spec_big_delta(p0),
                self.completed == old(self).completed,
                self.nodes >= old(self).nodes,
                self.node_limit == old(self).node_limit,
                self.best_move == old(self).best_move,
            decreases 5 - picker.stage,
        {
            let range = picker.next();
            match range {
                None => {
                    break ;
                },
                Some((lo, hi)) => {
                    let mut quit: bool = false;
                    let mut i = lo;
                    while i < hi
                        invariant
                            p0 == old(self).board@,
                            b0 == old(self).board,
                            buf0 == old(self).buffer@,
                            self.board.wf(),
                            self.board@ == p0,
                            self.board.history@ == b0.history@,
                            self.board.zobrist == b0.zobrist,
                            self.board.checkers == b0.checkers,
                            self.board.keys == b0.keys,
                            self.buffer@.len() >= buf0.len(),
                            forall|i2: int| 0 <= i2 < buf0.len() ==> self.buffer@[i2] == buf0[i2],
                            picker.wf(p0, self.buffer@),
                            pick_start == picker.start,
                            buf0.len() == pick_start,
                            lo <= i <= hi,
                            picker.start <= lo,
                            hi <= picker.end,
                            self.ply == old(self).ply,
                            self.ply < MAX_DEPTH,
                            -SCORE_INF <= alpha,
                            beta <= SCORE_INF,
                            -SCORE_INF <= stand_pat <= SCORE_INF,
                            stand_pat as int == clamp_score(spec_eval(p0)),
                            old(self).nodes < old(self).node_limit,
                            !spec_draw_state(old(self).board, 1),
                            stand_pat as int >= alpha - spec_big_delta(p0),
                            self.completed == old(self).completed,
                            alpha <= alpha_mut < beta,
                            alpha_mut >= stand_pat,
                            self.nodes >= old(self).nodes,
                            self.node_limit == old(self).node_limit,
                            self.best_move == old(self).best_move,
                        decreases hi - i,
                    {
                        let m = self.buffer[i];
                        proof {
                            lemma_move_ok_of_pseudo(p0, m);
                        }
                        if m.is_quiet() {
                            quit = true;
                            i = hi;
                        } else {
                            let worth_it: bool = if m.is_capture() {
                                crate::params::value_of(m.get_capture()) + DELTA >= alpha_mut
                            } else {
                                true
                            };
                            if worth_it && self.board.is_legal(m) {
                                let mut dummy_tt = TranspositionTable::with_buckets(1);
                                let score = self.search_child(
                                    &mut dummy_tt,
                                    m,
                                    alpha_mut,
                                    beta,
                                    0,
                                    true,
                                );
                                if self.nodes >= self.node_limit {
                                    self.buffer.truncate(pick_start);
                                    proof {
                                        assert(self.buffer@ =~= buf0);
                                    }
                                    return 0;
                                }
                                if score > alpha_mut {
                                    if score >= beta {
                                        self.buffer.truncate(pick_start);
                                        proof {
                                            assert(self.buffer@ =~= buf0);
                                        }
                                        return beta;
                                    }
                                    alpha_mut = score;
                                }
                            }
                            i = i + 1;
                        }
                    }
                    if quit {
                        break ;
                    }
                },
            }
        }
        self.buffer.truncate(pick_start);
        proof {
            assert(self.buffer@ =~= buf0);
        }
        alpha_mut
    }

    /// Whether the side to move has a pawn one step from promoting.
    fn side_pawn_on_pre_promo_rank(&self) -> (r: bool)
        requires
            self.board.boards_ok(),
        ensures
            r == pre_promo_pawn(self.board@),
    {
        let rank: u8 = match self.board.get_side_to_move() {
            crate::color::Color::White => 6,
            crate::color::Color::Black => 1,
        };
        let us = self.board.get_side_to_move();
        let mut f: u8 = 0;
        let mut found: bool = false;
        while f < 8
            invariant
                self.board.boards_ok(),
                f <= 8,
                rank as int == (match self.board@.side {
                    crate::color::Color::White => 6int,
                    crate::color::Color::Black => 1int,
                }),
                us == self.board@.side,
                found <==> exists|f2: int|
                    0 <= f2 < f && #[trigger] self.board@.squares[rank as int * 8 + f2] == Some(
                        (us, Piece::Pawn),
                    ),
            decreases 8 - f,
        {
            match self.board.piece_at(crate::square::Square(rank * 8 + f)) {
                Some((c, p)) => {
                    if c == us && matches!(p, Piece::Pawn) {
                        found = true;
                    }
                },
                None => {},
            }
            f = f + 1;
        }
        proof {
            let p = self.board@;
            let ri: int = rank as int;
            if found {
                let f2 = choose|f2: int|
                    0 <= f2 < 8 && #[trigger] p.squares[ri * 8 + f2] == Some((us, Piece::Pawn));
                assert(pawn_at_pre_promo(p, f2));
                assert(pre_promo_pawn(p));
            } else {
                if pre_promo_pawn(p) {
                    let f2 = choose|f2: int| 0 <= f2 < 8 && #[trigger] pawn_at_pre_promo(p, f2);
                    assert(p.squares[ri * 8 + f2] == Some((us, Piece::Pawn)));
                    assert(false);
                }
            }
        }
        found
    }

    /// The aspiration driver: seeds a score with a full-width
    /// quiescence search, then searches each depth with a narrow
    /// window widened on a fail-high or fail-low, up to the given
    /// depth or until the node budget runs out, recording the
    /// deepest completed iteration. A spent budget and a
    /// pseudo-draw position yield score 0.
    pub fn search_position(&mut self, tt: &mut TranspositionTable, max_depth: u8) -> (r: i32)
        requires
            old(self).wf(),
            old(tt).wf(),
            old(self).ply == 0,
            max_depth <= MAX_DEPTH,
            old(self).buffer@.len() < 1048576,
        ensures
            final(self).wf(),
            final(tt).wf(),
            final(self).board@ == old(self).board@,
            final(self).board.history@ == old(self).board.history@,
            final(self).board.zobrist == old(self).board.zobrist,
            final(self).board.checkers == old(self).board.checkers,
            final(self).board.keys == old(self).board.keys,
            final(self).buffer@ == old(self).buffer@,
            final(self).ply == 0,
            final(self).nodes >= old(self).nodes,
            final(self).best_move is Null || spec_move_ok(old(self).board@, final(self).best_move)
                || final(self).best_move == old(self).best_move,
            final(self).best_move is Null ==> old(self).best_move is Null,
            final(self).completed <= max_depth,
            final(self).nodes < old(self).node_limit ==> final(self).completed == max_depth,
            (final(self).nodes < old(self).node_limit && max_depth >= 1 && !spec_draw_state(
                old(self).board,
                1,
            ) && (exists|m: Move| #[trigger] spec_legal(old(self).board@, m)))
                ==> !(final(self).best_move is Null) && spec_move_ok(
                old(self).board@,
                final(self).best_move,
            ),
            -SCORE_INF <= r <= SCORE_INF,
            old(self).nodes >= old(self).node_limit ==> r == 0 && final(tt).entries@
                == old(tt).entries@,
            spec_draw_state(old(self).board, 1) ==> r == 0,
    {
        self.completed = 0;
        let mut best_score = self.quiescence(-SCORE_INF, SCORE_INF);
        let mut d: u8 = 1;
        while d <= max_depth
            invariant
                d <= MAX_DEPTH + 1,
                max_depth <= MAX_DEPTH,
                self.wf(),
                tt.wf(),
                self.board@ == old(self).board@,
                self.board.history@ == old(self).board.history@,
                self.board.zobrist == old(self).board.zobrist,
                self.board.checkers == old(self).board.checkers,
                self.board.keys == old(self).board.keys,
                self.buffer@ == old(self).buffer@,
                old(self).buffer@.len() < 1048576,
                self.ply == 0,
                self.completed == d - 1 || (d == 1 && self.completed == 0),
                self.completed <= max_depth,
                d >= 1,
                self.nodes >= old(self).nodes,
                self.node_limit == old(self).node_limit,
                -SCORE_INF <= best_score <= SCORE_INF,
                spec_draw_state(self.board, 1) == spec_draw_state(old(self).board, 1),
                self.best_move is Null || spec_move_ok(old(self).board@, self.best_move)
                    || self.best_move == old(self).best_move,
                self.best_move is Null ==> old(self).best_move is Null,
                spec_draw_state(old(self).board, 1) ==> best_score == 0,
                old(self).nodes >= old(self).node_limit ==> best_score == 0,
                old(self).nodes >= old(self).node_limit ==> tt.entries@ == old(tt).entries@,
                (max_depth >= 1 && !spec_draw_state(old(self).board, 1) && (exists|m: Move|
                    #[trigger] spec_legal(old(self).board@, m)) && d >= 2 && self.nodes < old(
                    self,
                ).node_limit) ==> (!(self.best_move is Null) && spec_move_ok(
                    old(self).board@,
                    self.best_move,
                )),
            decreases max_depth - d + 1,
        {
            let mut lo_idx: usize = 0;
            let mut hi_idx: usize = 0;
            let mut done: bool = false;
            let mut tries: u8 = 0;
            while !done && tries < 8
                invariant
                    self.wf(),
                    tt.wf(),
                    self.board@ == old(self).board@,
                    self.board.history@ == old(self).board.history@,
                    self.board.zobrist == old(self).board.zobrist,
                    self.board.checkers == old(self).board.checkers,
                    self.board.keys == old(self).board.keys,
                    self.buffer@ == old(self).buffer@,
                    old(self).buffer@.len() < 1048576,
                    self.ply == 0,
                    done ==> self.completed == d,
                    !done ==> (self.completed == d - 1 || (d == 1 && self.completed == 0)),
                    self.completed <= max_depth,
                    1 <= d <= max_depth <= MAX_DEPTH,
                    lo_idx <= 3,
                    hi_idx <= 3,
                    done || lo_idx + hi_idx >= tries,
                    done ==> tries >= 1,
                    self.nodes >= old(self).nodes,
                    self.node_limit == old(self).node_limit,
                    -SCORE_INF <= best_score <= SCORE_INF,
                    spec_draw_state(self.board, 1) == spec_draw_state(old(self).board, 1),
                    self.best_move is Null || spec_move_ok(old(self).board@, self.best_move)
                        || self.best_move == old(self).best_move,
                    self.best_move is Null ==> old(self).best_move is Null,
                    spec_draw_state(old(self).board, 1) ==> best_score == 0,
                    old(self).nodes >= old(self).node_limit ==> best_score == 0,
                    old(self).nodes >= old(self).node_limit ==> tt.entries@ == old(tt).entries@,
                    (max_depth >= 1 && !spec_draw_state(old(self).board, 1) && (exists|m: Move|
                        #[trigger] spec_legal(old(self).board@, m)) && (d >= 2 || tries >= 1)
                        && self.nodes < old(self).node_limit) ==> (!(self.best_move is Null)
                        && spec_move_ok(old(self).board@, self.best_move)),
                decreases 8 - tries,
            {
                let wlo: i64 = aspiration_width(lo_idx) as i64;
                let whi: i64 = aspiration_width(hi_idx) as i64;
                let alpha64: i64 = best_score as i64 - wlo;
                let beta64: i64 = best_score as i64 + whi;
                let alpha: i32 = if alpha64 < -(SCORE_INF as i64) {
                    -SCORE_INF
                } else {
                    alpha64 as i32
                };
                let beta: i32 = if beta64 > SCORE_INF as i64 {
                    SCORE_INF
                } else {
                    beta64 as i32
                };
                let score = self.alpha_beta(tt, alpha, beta, d);
                if self.nodes >= self.node_limit {
                    return best_score;
                }
                if score <= alpha && lo_idx < 3 {
                    lo_idx = lo_idx + 1;
                } else if score >= beta && hi_idx < 3 {
                    hi_idx = hi_idx + 1;
                } else {
                    best_score = score;
                    done = true;
                    self.completed = d;
                }
                tries = tries + 1;
            }
            proof {
                assert(done);
            }
            d = d + 1;
        }
        best_score
    }
}

} // verus!
