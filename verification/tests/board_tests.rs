use xiangqi::board::Board;
use xiangqi::constants::Piece;

const START_FEN: &str = "rnbakabnr/9/1c5c1/p1p1p1p1p/9/9/P1P1P1P1P/1C5C1/9/RNBAKABNR w - - 0 1";

#[test]
fn test_make_move() {
    let mut board = Board::from_fen(START_FEN);
    let moves = board.generate_legal_moves();
    let first_move = moves.get(0);
    let from_sq = first_move.from_sq();
    let to_sq = first_move.to_sq();
    let moving_piece = board.board[from_sq];

    board.move_piece(first_move);

    assert_eq!(board.board[to_sq], moving_piece);
    assert_eq!(board.board[from_sq], Piece::Empty);
}

#[test]
fn test_unmake_move() {
    let mut board = Board::from_fen(START_FEN);
    let original_fen = board.to_fen();
    let moves = board.generate_legal_moves();
    let first_move = moves.get(0);

    let captured_piece = board.move_piece(first_move);
    board.unmove_piece(first_move, captured_piece);

    assert_eq!(board.to_fen(), original_fen);
}

#[test]
fn test_unmake_restores_every_field() {
    let mut board = Board::from_fen(START_FEN);
    let moves = board.generate_legal_moves();
    for i in 0..moves.len() {
        let mv = moves.get(i);
        let hash_before = board.hash_key;
        let material_before = board.material_score;
        let mg_before = board.mg_pst_score;
        let eg_before = board.eg_pst_score;
        let ply_before = board.history_ply;
        let pieces_before = board.piece_bitboards.clone();
        let colors_before = board.color_bitboards.clone();
        let squares_before = board.board.clone();

        let captured = board.move_piece(mv);
        board.unmove_piece(mv, captured);

        assert_eq!(board.hash_key, hash_before);
        assert_eq!(board.material_score, material_before);
        assert_eq!(board.mg_pst_score, mg_before);
        assert_eq!(board.eg_pst_score, eg_before);
        assert_eq!(board.history_ply, ply_before);
        assert_eq!(board.piece_bitboards, pieces_before);
        assert_eq!(board.color_bitboards, colors_before);
        assert_eq!(board.board, squares_before);
    }
}

#[test]
fn test_fen_round_trip() {
    let board = Board::from_fen(START_FEN);
    assert_eq!(board.to_fen(), START_FEN);
}

#[test]
fn test_try_from_fen_rejects_malformed() {
    assert!(Board::try_from_fen("not a position").is_none());
    assert!(Board::try_from_fen("rnbakabnr/9/1c5c1 w").is_none());
    assert!(Board::try_from_fen(START_FEN).is_some());
}

#[test]
fn test_hash_consistency_after_moves() {
    // After a sequence of moves, the incrementally maintained hash and
    // accumulators equal those of a board rebuilt from the rendered
    // position.
    let mut board = Board::from_fen(START_FEN);
    for _ in 0..4 {
        let moves = board.generate_legal_moves();
        let mv = moves.get(0);
        board.move_piece(mv);
    }
    let rebuilt = Board::from_fen(&board.to_fen());
    assert_eq!(board.hash_key, rebuilt.hash_key);
    assert_eq!(board.material_score, rebuilt.material_score);
    assert_eq!(board.mg_pst_score, rebuilt.mg_pst_score);
    assert_eq!(board.eg_pst_score, rebuilt.eg_pst_score);
}

#[test]
fn test_accumulators_match_full_recount() {
    let mut board = Board::from_fen(START_FEN);
    let moves = board.generate_legal_moves();
    // Pick a capture if one exists, else the first move.
    let mut mv = moves.get(0);
    for i in 0..moves.len() {
        if moves.get(i).is_capture() {
            mv = moves.get(i);
            break;
        }
    }
    board.move_piece(mv);
    let (material, mg, eg) = xiangqi::evaluate::calculate_full_scores(&board);
    assert_eq!(board.material_score, material);
    assert_eq!(board.mg_pst_score, mg);
    assert_eq!(board.eg_pst_score, eg);
}

#[test]
fn test_bitboards_agree_with_array() {
    let board = Board::from_fen(START_FEN);
    let occupied = board.occupied_bitboard();
    let mut count = 0u32;
    for s in 0..90usize {
        let in_occ = (occupied >> (s as u128)) & 1 == 1;
        assert_eq!(in_occ, board.board[s] != Piece::Empty);
        if in_occ {
            count += 1;
        }
    }
    assert_eq!(count, 32);
    assert_eq!(xiangqi::bits::popcount(occupied), 32);
}

#[test]
fn test_popcount_and_lsb() {
    assert_eq!(xiangqi::bits::popcount(0), 0);
    assert_eq!(xiangqi::bits::popcount(0b1011), 3);
    assert_eq!(xiangqi::bits::get_lsb_index(0), -1);
    assert_eq!(xiangqi::bits::get_lsb_index(0b1000), 3);
    assert_eq!(xiangqi::bits::get_lsb_index(1u128 << 89), 89);
}
