//! The engine facade: owns the authoritative board, the shared
//! transposition table and the best-move report, and runs search
//! sessions over them. A caller drives it with plain commands.

use vstd::prelude::*;
use crate::board::{king_safe_after, spec_do, spec_move_ok, Board, HistRec};
use crate::errors::ChessError;
use crate::fen::{lemma_coords_unique, render_move, spec_move_coords};
use crate::movegen::{
    lemma_move_ok_of_legal, lemma_move_ok_of_pseudo, spec_legal, spec_pseudo_legal,
};
use crate::moves::Move;
use crate::params::MAX_DEPTH;
use crate::search::Search;
use crate::table::TranspositionTable;

verus! {

/// Ask the engine to compute a move and give back the result.
pub struct EngineAskMove;

/// Tell the engine a move has been played.
pub struct EngineMakeMove {
    /// The move, in pure coordinate notation.
    pub mv: String,
}

/// A command the engine sends back to a connected client.
pub enum ClientCommand {
    /// A line of information.
    Info(String),
    /// A rendered position.
    State(String),
}

/// The engine: the authoritative board, the transposition table,
/// and the best move found with the depth it was found at.
pub struct Engine {
    /// The authoritative board.
    pub board: Board,
    /// The shared transposition table.
    pub table: TranspositionTable,
    /// The best move reported by the last search session.
    pub best_move: Move,
    /// The deepest completed depth of the last session.
    pub depth: u8,
}

impl Engine {
    /// The engine's board is consistent, its table usable, and the
    /// reported move applies to the board.
    pub open spec fn wf(&self) -> bool {
        &&& self.board.wf()
        &&& self.table.wf()
        &&& self.best_move is Null || spec_move_ok(self.board@, self.best_move)
    }

    /// Creates an engine over a starting board.
    pub fn new(board: Board) -> (r: Engine)
        requires
            board.wf(),
        ensures
            r.wf(),
            r.board == board,
            r.best_move is Null,
            r.depth == 0,
    {
        Engine { board, table: TranspositionTable::new(), best_move: Move::Null, depth: 0 }
    }

    /// Read access to the board.
    pub fn read_board(&self) -> (r: &Board)
        ensures
            r == &self.board,
    {
        &self.board
    }

    /// Replaces the board, clearing the report.
    pub fn write_board(&mut self, board: Board)
        requires
            board.wf(),
            old(self).wf(),
        ensures
            final(self).wf(),
            final(self).board == board,
            final(self).best_move is Null,
            final(self).depth == 0,
    {
        self.board = board;
        self.best_move = Move::Null;
        self.depth = 0;
    }

    /// Runs one search session: iterative deepening up to the given
    /// depth within the node budget, then publishes the report. A
    /// move is reported exactly when the position has one: the
    /// published move is legal, preferring the search's choice, and
    /// the depth is the deepest fully completed iteration.
    pub fn think(&mut self, max_depth: u8, node_limit: u64)
        requires
            old(self).wf(),
            max_depth <= MAX_DEPTH,
        ensures
            final(self).wf(),
            final(self).board@ == old(self).board@,
            final(self).board.history@ == old(self).board.history@,
            final(self).board.zobrist == old(self).board.zobrist,
            final(self).board.checkers == old(self).board.checkers,
            final(self).board.keys == old(self).board.keys,
            final(self).best_move is Null <==> (forall|m: Move|
                !spec_legal(old(self).board@, m)),
            !(final(self).best_move is Null) ==> spec_legal(
                old(self).board@,
                final(self).best_move,
            ),
            final(self).depth <= max_depth,
            final(self).best_move is Null ==> final(self).depth == 0,
    {
        let moves = self.board.legal_moves();
        if moves.len() == 0 {
            self.best_move = Move::Null;
            self.depth = 0;
            proof {
                assert forall|m: Move| !spec_legal(self.board@, m) by {
                    if spec_legal(self.board@, m) {
                        let i = choose|i: int| 0 <= i < moves@.len() && moves@[i] == m;
                    }
                }
            }
            return ;
        }
        let board_copy = self.board.duplicate();
        let mut search = Search::new(board_copy, node_limit);
        let _score = search.search_position(&mut self.table, max_depth);
        let mut chosen: Move = moves[0];
        let mut from_search: bool = false;
        if !search.best_move.is_none() {
            let n = moves.len();
            let mut i: usize = 0;
            while i < n
                invariant
                    n == moves@.len(),
                    i <= n,
                    exists|k: int| 0 <= k < moves@.len() && moves@[k] == chosen,
                decreases n - i,
            {
                if moves[i] == search.best_move {
                    chosen = search.best_move;
                    proof {
                        assert(moves@[i as int] == chosen);
                    }
                    from_search = true;
                    i = n;
                } else {
                    i = i + 1;
                }
            }
        }
        proof {
            let k = choose|k: int| 0 <= k < moves@.len() && moves@[k] == chosen;
            assert(spec_legal(self.board@, chosen));
            lemma_move_ok_of_legal(self.board@, chosen);
        }
        self.best_move = chosen;
        self.depth = search.completed;
    }

    /// The best move found, if any depth has been completed.
    pub fn get_best_move(&self) -> (r: Option<Move>)
        ensures
            match r {
                Some(m) => m == self.best_move && !(m is Null),
                None => self.best_move is Null,
            },
    {
        if self.best_move.is_none() {
            None
        } else {
            Some(self.best_move)
        }
    }

    /// The deepest completed depth of the current or most recent
    /// session.
    pub fn get_current_depth(&self) -> (r: u8)
        ensures
            r == self.depth,
    {
        self.depth
    }

    /// Plays a move given in coordinate notation. Succeeds exactly
    /// when some pseudo-legal move matches the literal and is
    /// legal: the board then advances by that move and the report
    /// is cleared. A malformed literal or an illegal move leaves
    /// the board and its history unchanged.
    pub fn handle_make_move(&mut self, cmd: EngineMakeMove) -> (r: Result<(), ChessError>)
        requires
            old(self).wf(),
        ensures
            final(self).wf(),
            r is Ok <==> (exists|m: Move|
                #[trigger] spec_pseudo_legal(old(self).board@, m) && cmd.mv@ == spec_move_coords(
                    m,
                    old(self).board@.side,
                ) && king_safe_after(old(self).board@, m)),
            r is Ok ==> (exists|m: Move|
                {
                    &&& #[trigger] spec_pseudo_legal(old(self).board@, m)
                    &&& cmd.mv@ == spec_move_coords(m, old(self).board@.side)
                    &&& king_safe_after(old(self).board@, m)
                    &&& final(self).board@ == spec_do(old(self).board@, m)
                    &&& final(self).board.history@ == old(self).board.history@.push(
                        HistRec {
                            zobrist: old(self).board.zobrist,
                            halfmove: old(self).board.halfmove,
                            castle: old(self).board.castle,
                            ep: old(self).board.ep,
                            fullmove: old(self).board.fullmove,
                            checkers: old(self).board.checkers,
                        },
                    )
                }),
            r is Ok ==> final(self).best_move is Null && final(self).depth == 0,
            r is Err ==> final(self).board@ == old(self).board@ && final(self).board.history@
                == old(self).board.history@ && final(self).board.zobrist == old(self).board.zobrist
                && final(self).board.checkers == old(self).board.checkers,
            r matches Err(e) ==> e == ChessError::Parse || e == ChessError::IllegalMove,
    {
        let ghost p0 = self.board@;
        let m = match self.board.parse_move(cmd.mv.as_str()) {
            Ok(m) => m,
            Err(e) => {
                proof {
                    assert forall|m2: Move|
                        !(#[trigger] spec_pseudo_legal(p0, m2) && cmd.mv@ == spec_move_coords(
                            m2,
                            p0.side,
                        ) && king_safe_after(p0, m2)) by {}
                }
                return Err(e);
            },
        };
        proof {
            lemma_move_ok_of_pseudo(p0, m);
        }
        if !self.board.is_legal(m) {
            proof {
                assert forall|m2: Move|
                    !(#[trigger] spec_pseudo_legal(p0, m2) && cmd.mv@ == spec_move_coords(
                        m2,
                        p0.side,
                    ) && king_safe_after(p0, m2)) by {
                    if spec_pseudo_legal(p0, m2) && cmd.mv@ == spec_move_coords(m2, p0.side) {
                        lemma_coords_unique(p0, m, m2);
                    }
                }
            }
            return Err(ChessError::IllegalMove);
        }
        self.board.do_move(m);
        self.best_move = Move::Null;
        self.depth = 0;
        Ok(())
    }

    /// Answers a move request: searches briefly and renders the
    /// move the engine would play. On a terminal position, where no
    /// legal move exists, the game is over and EndOfGame comes
    /// back.
    pub fn handle_ask_move(&mut self, _cmd: EngineAskMove) -> (r: Result<String, ChessError>)
        requires
            old(self).wf(),
        ensures
            final(self).wf(),
            final(self).board@ == old(self).board@,
            final(self).board.history@ == old(self).board.history@,
            final(self).board.zobrist == old(self).board.zobrist,
            final(self).board.checkers == old(self).board.checkers,
            r is Ok <==> (exists|m: Move| #[trigger] spec_legal(old(self).board@, m)),
            r matches Ok(s) ==> (exists|m: Move|
                #[trigger] spec_legal(old(self).board@, m) && s@ == spec_move_coords(
                    m,
                    old(self).board@.side,
                )),
            r matches Err(e) ==> e == ChessError::EndOfGame,
    {
        self.think(4, 200000);
        match self.get_best_move() {
            Some(m) => {
                proof {
                    lemma_move_ok_of_legal(self.board@, m);
                }
                let side = self.board.get_side_to_move();
                Ok(render_move(m, side))
            },
            None => Err(ChessError::EndOfGame),
        }
    }
}

} // verus!
