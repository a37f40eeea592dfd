//! Core of the Rush chess engine: bitboard position model with
//! incremental Zobrist hashing, legal move generation, staged move
//! picking, a bounded transposition table, and an iterative-deepening
//! alpha-beta search with quiescence refinement.

mod attacks;
mod bits;
mod board;
mod color;
mod engine;
mod errors;
mod eval;
mod fen;
mod movegen;
mod movepick;
mod moves;
mod params;
mod piece;
mod search;
mod square;
mod table;
mod zobrist;

pub use bits::BitBoard;
pub use board::{spec_move_ok, Board, HistRec, Position};
pub use engine::{ClientCommand, Engine, EngineAskMove, EngineMakeMove};
pub use eval::eval;
pub use fen::{render_move, spec_render};
pub use movegen::{spec_legal, spec_pseudo_legal, Status};
pub use movepick::MovePicker;
pub use search::Search;
pub use table::{TableEntry, TableEntryFlag, TranspositionTable};
pub use color::Color;
pub use errors::ChessError;
pub use moves::Move;
pub use piece::Piece;
pub use square::Square;
pub use zobrist::{Zobrist, ZobristKeys};
