use rush::{Board, ChessError, Color, Engine, Move, Piece, Square, Status};
use rush::{TableEntry, TableEntryFlag, TranspositionTable};

const STARTPOS: &str = "rnbqkbnr/pppppppp/8/8/8/8/PPPPPPPP/RNBQKBNR w KQkq - 0 1";

#[test]
fn color_invert_involution() {
    assert_eq!(Color::White.invert(), Color::Black);
    assert_eq!(Color::Black.invert(), Color::White);
    assert_eq!(Color::White.invert().invert(), Color::White);
}

#[test]
fn piece_chars_round_trip() {
    assert_eq!(Piece::from_char('K'), Some((Color::White, Piece::King)));
    assert_eq!(Piece::from_char('q'), Some((Color::Black, Piece::Queen)));
    assert_eq!(Piece::from_char('x'), None);
    assert_eq!(Piece::Knight.as_char(Color::White), 'N');
    assert_eq!(Piece::Pawn.as_char(Color::Black), 'p');
}

#[test]
fn move_from_to_and_null() {
    let m = Move::Quiet { from: Square(12), to: Square(28) };
    assert_eq!(m.from(Color::White), Square(12));
    assert_eq!(m.to(Color::White), Square(28));
    assert!(!m.is_none());
    assert!(Move::Null.is_none());
    assert_eq!(Move::KingCastle.from(Color::White), Square(4));
    assert_eq!(Move::KingCastle.to(Color::White), Square(6));
    assert_eq!(Move::QueenCastle.to(Color::Black), Square(58));
}

#[test]
fn zobrist_hash_projections() {
    let b = Board::parse_fen(STARTPOS).unwrap();
    let z = b.get_zobrist();
    assert!(z.h1() < 0x2000);
    assert!(z.h2() < 0x2000);
}

#[test]
fn fen_round_trip_startpos() {
    let b = Board::parse_fen(STARTPOS).unwrap();
    assert_eq!(b.render_fen(), STARTPOS);
}

#[test]
fn fen_round_trip_various() {
    let fens = [
        "r3k2r/p1ppqpb1/bn2pnp1/3PN3/1p2P3/2N2Q1p/PPPBBPPP/R3K2R w KQkq - 0 1",
        "8/8/8/8/8/5K2/6Q1/7k w - - 0 1",
        "4k3/8/8/8/8/8/4P3/4K3 w - - 0 1",
        "rnbqkbnr/pppppppp/8/8/4P3/8/PPPP1PPP/RNBQKBNR b KQkq e3 0 1",
    ];
    for f in fens {
        let b = Board::parse_fen(f).unwrap();
        assert_eq!(b.render_fen(), *f);
    }
}

#[test]
fn fen_rejects_malformed() {
    assert!(Board::parse_fen("").is_err());
    assert!(Board::parse_fen("rubbish").is_err());
    // A side with no king is rejected.
    assert!(Board::parse_fen("8/8/8/8/8/8/8/4K3 w - - 0 1").is_err());
    // A full-move counter of zero is rejected.
    assert!(Board::parse_fen("4k3/8/8/8/8/8/8/4K3 w - - 0 0").is_err());
}

#[test]
fn parse_move_round_trip() {
    let b = Board::parse_fen(STARTPOS).unwrap();
    let m = b.parse_move("e2e4").unwrap();
    assert_eq!(rush::render_move(m, Color::White), "e2e4");
    let g = b.parse_move("g1f3").unwrap();
    assert_eq!(rush::render_move(g, Color::White), "g1f3");
    assert_eq!(b.parse_move("e2e5"), Err(ChessError::IllegalMove));
    assert_eq!(b.parse_move("zz"), Err(ChessError::Parse));
}

#[test]
fn do_undo_restores_exactly() {
    let mut b = Board::parse_fen(STARTPOS).unwrap();
    let fen0 = b.render_fen();
    let z0 = b.get_zobrist();
    for coords in ["e2e4", "g1f3", "b1c3"] {
        let m = b.parse_move(coords).unwrap();
        b.do_move(m);
        b.undo_move(m);
        assert_eq!(b.render_fen(), fen0);
        assert_eq!(b.get_zobrist(), z0);
    }
}

#[test]
fn make_unmake_vs_fresh_parse() {
    let mut b = Board::parse_fen(STARTPOS).unwrap();
    let m = b.parse_move("e2e4").unwrap();
    b.do_move(m);
    let fen1 = b.render_fen();
    let fresh = Board::parse_fen(&fen1).unwrap();
    assert_eq!(fresh.render_fen(), fen1);
    assert_eq!(fresh.get_zobrist(), b.get_zobrist());
}

#[test]
fn perft_startpos_shallow() {
    let mut b = Board::parse_fen(STARTPOS).unwrap();
    assert_eq!(b.perft(1), 20);
    assert_eq!(b.perft(2), 400);
}

#[test]
fn perft_startpos_depth3() {
    let mut b = Board::parse_fen(STARTPOS).unwrap();
    assert_eq!(b.perft(3), 8902);
}

#[test]
fn perft_startpos_depth4() {
    let mut b = Board::parse_fen(STARTPOS).unwrap();
    assert_eq!(b.perft(4), 197281);
}

#[test]
fn perft_kiwipete_depth3() {
    let mut b = Board::parse_fen(
        "r3k2r/p1ppqpb1/bn2pnp1/3PN3/1p2P3/2N2Q1p/PPPBBPPP/R3K2R w KQkq - 0 1",
    )
    .unwrap();
    assert_eq!(b.perft(3), 97862);
}

#[test]
fn perft_kiwipete() {
    let mut b = Board::parse_fen(
        "r3k2r/p1ppqpb1/bn2pnp1/3PN3/1p2P3/2N2Q1p/PPPBBPPP/R3K2R w KQkq - 0 1",
    )
    .unwrap();
    assert_eq!(b.perft(1), 48);
    assert_eq!(b.perft(2), 2039);
}

#[test]
fn status_stalemate_is_draw() {
    // Black to move, stalemated in the corner.
    let mut b = Board::parse_fen("7k/5Q2/6K1/8/8/8/8/8 b - - 0 1").unwrap();
    assert_eq!(b.status(), Status::Draw);
    assert_eq!(b.legal_moves().len(), 0);
}

#[test]
fn status_mate_is_win() {
    // A supported queen on g7 mates the cornered king.
    let mut b = Board::parse_fen("7k/6Q1/6K1/8/8/8/8/8 b - - 0 1").unwrap();
    assert_eq!(b.status(), Status::Win(Color::White));
    assert_eq!(b.legal_moves().len(), 0);
}

#[test]
fn castling_rights_scenario() {
    let mut b = Board::parse_fen("r3k2r/8/8/8/8/8/8/R3K2R w KQkq - 0 1").unwrap();
    // Both castles are legal for White.
    let king_side = b.parse_move("e1g1").unwrap();
    let queen_side = b.parse_move("e1c1").unwrap();
    assert_eq!(king_side, Move::KingCastle);
    assert_eq!(queen_side, Move::QueenCastle);
    assert!(b.is_legal(king_side));
    assert!(b.is_legal(queen_side));
    // e1h1 is not a king move in coordinate notation here: the rook
    // move is legal but loses the right.
    let rook_up = b.parse_move("a1a8").unwrap();
    assert!(b.is_legal(rook_up));
    b.do_move(rook_up);
    // Black lost the queen-side castle right with the a8 rook.
    let fen = b.render_fen();
    assert!(fen.contains(" Kk "));
}

#[test]
fn repetition_scenario_is_draw() {
    let mut b = Board::parse_fen(STARTPOS).unwrap();
    for coords in ["g1f3", "g8f6", "f3g1", "f6g8", "g1f3", "g8f6", "f3g1", "f6g8"] {
        let m = b.parse_move(coords).unwrap();
        assert!(b.is_legal(m));
        b.do_move(m);
    }
    assert_eq!(b.status(), Status::Draw);
}

#[test]
fn insufficient_material_scenario() {
    // Kings only: drawn by insufficient material.
    let mut b = Board::parse_fen("4k3/8/8/8/8/8/8/4K3 w - - 0 1").unwrap();
    assert_eq!(b.status(), Status::Draw);
    // A lone pawn is enough to play on.
    let mut b2 = Board::parse_fen("4k3/8/8/8/8/8/4P3/4K3 w - - 0 1").unwrap();
    assert_eq!(b2.status(), Status::Playing);
}

#[test]
fn fifty_move_rule_is_draw() {
    let mut b = Board::parse_fen("4k3/8/8/8/8/8/8/R3K3 w - - 100 80").unwrap();
    assert_eq!(b.status(), Status::Draw);
}

#[test]
fn search_finds_mate_in_one() {
    let board = Board::parse_fen("8/8/8/8/8/5K2/6Q1/7k w - - 0 1").unwrap();
    let mut engine = Engine::new(board);
    engine.think(3, 5_000_000);
    let best = engine.get_best_move().expect("engine found nothing");
    let coords = rush::render_move(best, Color::White);
    // The mating move: after it, the game is won by White.
    let mut b2 = Board::parse_fen("8/8/8/8/8/5K2/6Q1/7k w - - 0 1").unwrap();
    let m = b2.parse_move(&coords).unwrap();
    assert!(b2.is_legal(m));
    b2.do_move(m);
    assert_eq!(b2.status(), Status::Win(Color::White));
}

#[test]
fn search_startpos_reasonable_first_move() {
    let board = Board::parse_fen(STARTPOS).unwrap();
    let mut engine = Engine::new(board);
    engine.think(4, 5_000_000);
    let best = engine.get_best_move().expect("engine found nothing");
    let coords = rush::render_move(best, Color::White);
    // The classic choices, plus the sound developing moves this
    // engine's tie-breaking order can prefer at a fixed depth.
    assert!(
        ["e2e4", "d2d4", "g1f3", "c2c4", "b1c3", "e2e3", "d2d3"].contains(&coords.as_str()),
        "unexpected opening move {}",
        coords
    );
}

#[test]
fn zobrist_no_collisions_on_walk() {
    // A walk through distinct positions: every distinct rendering
    // gets a distinct full key.
    let mut b = Board::parse_fen(STARTPOS).unwrap();
    let mut seen: std::collections::HashMap<u64, String> = std::collections::HashMap::new();
    let mut walked = 0u32;
    let mut step = 0u64;
    while walked < 2000 {
        let moves = b.legal_moves();
        if moves.is_empty() || b.status() != Status::Playing {
            b = Board::parse_fen(STARTPOS).unwrap();
            continue;
        }
        step = step.wrapping_mul(6364136223846793005).wrapping_add(1442695040888963407);
        let m = moves[(step >> 33) as usize % moves.len()];
        b.do_move(m);
        let z = b.get_zobrist();
        // The key hashes the position, not the clocks: compare the
        // first four descriptor fields.
        let fen = b.render_fen();
        let core: String = fen.split(' ').take(4).collect::<Vec<_>>().join(" ");
        if let Some(prev) = seen.get(&z.0) {
            assert_eq!(prev, &core, "full-key collision");
        } else {
            seen.insert(z.0, core);
        }
        walked += 1;
    }
}

#[test]
fn transposition_table_replacement() {
    let mut tt = TranspositionTable::with_buckets(16);
    let e1 = TableEntry {
        zobrist: 5,
        mv: Move::Null,
        score: 10,
        depth: 5,
        age: 1,
        flag: TableEntryFlag::Exact,
    };
    tt.insert(e1);
    // A shallower, older entry does not evict a deeper, newer one.
    let e2 = TableEntry { zobrist: 21, mv: Move::Null, score: 7, depth: 2, age: 1, flag: TableEntryFlag::Exact };
    tt.insert(e2);
    match tt.probe(5, -100, 100, 4) {
        Some((_, s)) => assert_eq!(s, 10),
        None => panic!("expected a hit"),
    }
    // Same depth overwrites.
    let e3 = TableEntry { zobrist: 5, mv: Move::Null, score: 42, depth: 5, age: 2, flag: TableEntryFlag::Exact };
    tt.insert(e3);
    match tt.probe(5, -100, 100, 5) {
        Some((_, s)) => assert_eq!(s, 42),
        None => panic!("expected a hit"),
    }
}

#[test]
fn eval_startpos_is_balanced() {
    let b = Board::parse_fen(STARTPOS).unwrap();
    assert_eq!(rush::eval(&b), 0);
    // A queen up is roughly nine pawns up.
    let b2 = Board::parse_fen("4k3/8/8/8/8/8/8/3QK3 w - - 0 1").unwrap();
    assert!(rush::eval(&b2) >= 800);
}

#[test]
fn make_unmake_vs_reparse() {
    let mut b = Board::parse_fen(STARTPOS).unwrap();
    for coords in ["e2e4", "e7e5", "g1f3"] {
        let m = b.parse_move(coords).unwrap();
        b.do_move(m);
        let fresh = b.reparse();
        assert_eq!(fresh.render_fen(), b.render_fen());
        assert_eq!(fresh.get_zobrist(), b.get_zobrist());
        assert_eq!(fresh.get_checkers().0, b.get_checkers().0);
    }
}

#[test]
fn engine_commands() {
    let board = Board::parse_fen(STARTPOS).unwrap();
    let mut engine = Engine::new(board);
    // A malformed literal and an illegal move leave the board alone.
    let before = engine.read_board().render_fen();
    assert_eq!(
        engine.handle_make_move(rush::EngineMakeMove { mv: "xx".to_string() }),
        Err(ChessError::Parse)
    );
    assert_eq!(
        engine.handle_make_move(rush::EngineMakeMove { mv: "e2e5".to_string() }),
        Err(ChessError::IllegalMove)
    );
    assert_eq!(engine.read_board().render_fen(), before);
    // A legal move advances the board.
    assert_eq!(engine.handle_make_move(rush::EngineMakeMove { mv: "e2e4".to_string() }), Ok(()));
    assert!(engine.read_board().render_fen().starts_with("rnbqkbnr/pppppppp/8/8/4P3/8/PPPP1PPP/RNBQKBNR b"));
    // Asking for a move answers with a legal move in coordinates.
    let answer = engine.handle_ask_move(rush::EngineAskMove).unwrap();
    let m = engine.read_board().parse_move(&answer).unwrap();
    let mut probe = engine.read_board().duplicate();
    assert!(probe.is_legal(m));
    // On a finished game the engine reports the end.
    let mated = Board::parse_fen("7k/6Q1/6K1/8/8/8/8/8 b - - 0 1").unwrap();
    let mut engine2 = Engine::new(mated);
    assert_eq!(engine2.handle_ask_move(rush::EngineAskMove), Err(ChessError::EndOfGame));
}

#[test]
fn think_reports_iff_a_move_exists() {
    // Stalemate: nothing to report.
    let board = Board::parse_fen("7k/5Q2/6K1/8/8/8/8/8 b - - 0 1").unwrap();
    let mut engine = Engine::new(board);
    engine.think(2, 100000);
    assert_eq!(engine.get_best_move(), None);
    assert_eq!(engine.get_current_depth(), 0);
    // A playable position always yields a legal move, even with no
    // budget to search.
    let board2 = Board::parse_fen(STARTPOS).unwrap();
    let mut engine2 = Engine::new(board2);
    engine2.think(2, 0);
    let m = engine2.get_best_move().expect("a legal move exists");
    let mut probe = engine2.read_board().duplicate();
    assert!(probe.is_legal(m));
}
