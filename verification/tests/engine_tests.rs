use xiangqi::board::Board;
use xiangqi::constants::{Piece, Player, MATE_VALUE};
use xiangqi::engine::Engine;
use xiangqi::moves::Move;
use xiangqi::tt::{TranspositionTable, TtFlag};

const START_FEN: &str = "rnbakabnr/9/1c5c1/p1p1p1p1p/9/9/P1P1P1P1P/1C5C1/9/RNBAKABNR w - - 0 1";

#[test]
fn test_move_encoding_round_trip() {
    let m = Move::new(37, 88, Some(Piece::BPawn));
    assert_eq!(m.from_sq(), 37);
    assert_eq!(m.to_sq(), 88);
    assert!(m.is_capture());
    let q = Move::new(0, 89, None);
    assert_eq!(q.from_sq(), 0);
    assert_eq!(q.to_sq(), 89);
    assert!(!q.is_capture());
}

#[test]
fn test_move_mirrored() {
    // Square 81 is file a rank 0; its mirror in the same rank is file i.
    let m = Move::new(81, 0, None);
    let r = m.mirrored();
    assert_eq!(r.from_sq(), 89);
    assert_eq!(r.to_sq(), 8);
}

#[test]
fn test_move_uci_string() {
    let m = Move::new(81, 8, None);
    assert_eq!(m.to_uci_string(), "a0i9");
    let n = Move::new(70, 67, None);
    assert_eq!(n.to_uci_string(), "h2e2");
}

#[test]
fn test_piece_maps() {
    assert_eq!(Piece::RKing.get_bb_index(), Some(0));
    assert_eq!(Piece::BPawn.get_bb_index(), Some(13));
    assert_eq!(Piece::Empty.get_bb_index(), None);
    assert_eq!(Piece::BKing.get_zobrist_idx(), Some(0));
    assert_eq!(Piece::RKing.get_zobrist_idx(), Some(7));
    assert_eq!(Piece::from_fen_char('N'), Some(Piece::RHorse));
    assert_eq!(Piece::from_fen_char('x'), None);
    assert_eq!(Piece::RRook.to_fen_char(), 'R');
    assert_eq!(Piece::from_abs(-5), Piece::BRook);
    assert_eq!(Piece::RCannon.abs_val(), 6);
    assert_eq!(Piece::BRook.value(), 900);
    assert!(Piece::RHorse.is_major());
    assert!(!Piece::RPawn.is_major());
    assert_eq!(Player::Red.opponent(), Player::Black);
    assert_eq!(Player::Black.get_bb_idx(), 1);
}

#[test]
fn test_transposition_table() {
    let mut tt = TranspositionTable::new(1);
    let mv = Move::new(12, 21, None);
    tt.store(0xDEAD_BEEF, 5, 42, TtFlag::Exact, mv);
    let hit = tt.probe(0xDEAD_BEEF).expect("stored entry");
    assert_eq!(hit.depth, 5);
    assert_eq!(hit.score, 42);
    assert_eq!(hit.flag, TtFlag::Exact);
    assert_eq!(hit.best_move.from_sq(), 12);

    // A shallower result does not evict a deeper one.
    tt.store(0xDEAD_BEEF, 2, 7, TtFlag::LowerBound, mv);
    let kept = tt.probe(0xDEAD_BEEF).expect("kept entry");
    assert_eq!(kept.depth, 5);
    assert_eq!(kept.score, 42);

    tt.clear();
    assert!(tt.probe(0xDEAD_BEEF).is_none());
}

#[test]
fn test_evaluate_start_position_is_balanced() {
    let board = Board::from_fen(START_FEN);
    let config = xiangqi::config::Config::default();
    assert_eq!(xiangqi::evaluate::evaluate(&board, &config), 0);
}

#[test]
fn test_evaluate_rewards_material() {
    // Red with an extra rook, Black to move: the mover's score is negative.
    let board = Board::from_fen("3k5/9/9/9/9/9/9/9/9/3KR4 b - - 0 1");
    let config = xiangqi::config::Config::default();
    assert!(xiangqi::evaluate::evaluate(&board, &config) < -800);
}

#[test]
fn test_repetition_is_draw() {
    // Shuffle both rooks back and forth twice: the start position has
    // then occurred three times with Red to move, a draw.
    let mut board = Board::from_fen("r2k5/9/9/9/9/9/9/9/9/R3K4 w - - 0 1");
    let ra0a1 = Move::new(81, 72, None);
    let ra1a0 = Move::new(72, 81, None);
    let ra9a8 = Move::new(0, 9, None);
    let ra8a9 = Move::new(9, 0, None);
    for _ in 0..2 {
        board.move_piece(ra0a1);
        board.move_piece(ra9a8);
        board.move_piece(ra1a0);
        board.move_piece(ra8a9);
    }
    let mut engine = Engine::new(1);
    let (mv, score) = engine.negamax(&mut board, 3, -1_000_000, 1_000_000, 1);
    assert_eq!(score, 0);
    assert_eq!(mv.from_sq(), 0);
    assert_eq!(mv.to_sq(), 0);
}

#[test]
fn test_search_finds_mate_in_one() {
    // A back-rank mate: the rook on b7 mates on b9.
    let mut board = Board::from_fen("3k5/R8/1R7/9/9/9/9/9/9/4K4 w - - 0 1");
    let mut engine = Engine::new(1);
    let (best, score, _depth) = engine.search(&mut board, 2, None);
    assert!(score >= MATE_VALUE - 2);
    assert_eq!(best.from_sq(), 19);
    assert_eq!(best.to_sq(), 1);
}

#[test]
fn test_search_returns_legal_move_from_start() {
    let mut board = Board::from_fen(START_FEN);
    let fen_before = board.to_fen();
    let mut engine = Engine::new(1);
    let (best, _score, depth) = engine.search(&mut board, 3, None);
    assert!(depth >= 1);
    // The board is restored and the chosen move is among the legal ones.
    assert_eq!(board.to_fen(), fen_before);
    let moves = board.generate_legal_moves();
    let mut found = false;
    for i in 0..moves.len() {
        let m = moves.get(i);
        if m.from_sq() == best.from_sq() && m.to_sq() == best.to_sq() {
            found = true;
        }
    }
    assert!(found);
}
