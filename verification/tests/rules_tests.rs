use xiangqi::board::Board;
use xiangqi::constants::Player;
use xiangqi::move_gen::{get_cannon_moves_bb, get_rook_moves_bb, AttackTables, GameOutcome};
use xiangqi::moves::{Move, MoveList};

const START_FEN: &str = "rnbakabnr/9/1c5c1/p1p1p1p1p/9/9/P1P1P1P1P/1C5C1/9/RNBAKABNR w - - 0 1";

fn legal_pairs(board: &mut Board) -> Vec<(usize, usize)> {
    let moves = board.generate_legal_moves();
    let mut v = Vec::new();
    for i in 0..moves.len() {
        let m = moves.get(i);
        v.push((m.from_sq(), m.to_sq()));
    }
    v
}

#[test]
fn test_initial_position_has_44_moves() {
    let mut board = Board::from_fen(START_FEN);
    let moves = board.generate_legal_moves();
    assert_eq!(moves.len(), 44);
}

#[test]
fn test_flying_general_restricts_king() {
    // Both kings alone on the d file: the red king may not stay there.
    let mut board = Board::from_fen("3k5/9/9/9/9/9/9/9/9/3K5 w - - 0 1");
    let pairs = legal_pairs(&mut board);
    // Red king on d0 (square 84); its only legal move steps aside to e0.
    assert_eq!(pairs, vec![(84, 85)]);
}

#[test]
fn test_horse_leg_blocked() {
    // A red horse on d0 with a red pawn on d1 cannot jump over it.
    let mut board = Board::from_fen("4k4/9/9/9/9/9/9/9/3P5/3N1K3 w - - 0 1");
    let pairs = legal_pairs(&mut board);
    // Jumps over the blocked leg, to c2 (65) and e2 (67), are missing.
    assert!(!pairs.contains(&(84, 65)));
    assert!(!pairs.contains(&(84, 67)));
    // The sideways jump to b1 (73), whose leg c0 is empty, is present.
    assert!(pairs.contains(&(84, 73)));
}

#[test]
fn test_cannon_needs_exactly_one_screen() {
    // Cannon on b2, enemy rook on b9, file otherwise empty: no capture.
    let mut board = Board::from_fen("1r2k4/9/9/9/9/9/9/1C7/9/5K3 w - - 0 1");
    let pairs = legal_pairs(&mut board);
    assert!(!pairs.contains(&(64, 1)));

    // With one screen on the file the capture becomes legal.
    let mut board2 = Board::from_fen("1r2k4/9/9/9/1p7/9/9/1C7/9/5K3 w - - 0 1");
    let pairs2 = legal_pairs(&mut board2);
    assert!(pairs2.contains(&(64, 1)));

    // With two screens it is illegal again.
    let mut board3 = Board::from_fen("1r2k4/1p7/9/9/1p7/9/9/1C7/9/5K3 w - - 0 1");
    let pairs3 = legal_pairs(&mut board3);
    assert!(!pairs3.contains(&(64, 1)));
}

#[test]
fn test_pseudo_generators_split_by_capture() {
    let board = Board::from_fen(START_FEN);
    let mut caps = MoveList::new();
    board.generate_capture_moves(&mut caps);
    for i in 0..caps.len() {
        assert!(caps.get(i).is_capture());
    }
    let mut quiets = MoveList::new();
    board.generate_quiet_moves(&mut quiets);
    for i in 0..quiets.len() {
        assert!(!quiets.get(i).is_capture());
    }
}

fn perft(board: &mut Board, depth: usize) -> u64 {
    if depth == 0 {
        return 1;
    }
    let moves = board.generate_legal_moves();
    if depth == 1 {
        return moves.len() as u64;
    }
    let mut total = 0u64;
    for i in 0..moves.len() {
        let mv = moves.get(i);
        let captured = board.move_piece(mv);
        total += perft(board, depth - 1);
        board.unmove_piece(mv, captured);
    }
    total
}

#[test]
fn test_perft_shallow() {
    let mut board = Board::from_fen(START_FEN);
    assert_eq!(perft(&mut board, 1), 44);
    assert_eq!(perft(&mut board, 2), 1920);
}

#[test]
fn test_perft_depth_three() {
    let mut board = Board::from_fen(START_FEN);
    assert_eq!(perft(&mut board, 3), 79666);
}

#[test]
fn test_attack_tables_match_rules() {
    let tables = AttackTables::new();
    // A king on e1 (square 76) steps to d1, f1, e0 and e2.
    let king = tables.king[76];
    for &t in &[75usize, 77, 85, 67] {
        assert_eq!((king >> (t as u128)) & 1, 1);
    }
    assert_eq!(xiangqi::bits::popcount(king), 4);
    // A horse in the middle of the board has all eight targets.
    assert_eq!(xiangqi::bits::popcount(tables.horse[40]), 8);
    // A red pawn on its own half only pushes forward.
    assert_eq!(xiangqi::bits::popcount(tables.pawn[0][58]), 1);
    // Across the river it also moves sideways.
    assert_eq!(xiangqi::bits::popcount(tables.pawn[0][40]), 3);
    // The two half masks split the board evenly.
    assert_eq!(xiangqi::bits::popcount(tables.red_half_mask), 45);
    assert_eq!(xiangqi::bits::popcount(tables.black_half_mask), 45);
    assert_eq!(tables.red_half_mask & tables.black_half_mask, 0);
}

#[test]
fn test_sliding_attack_sets() {
    // An empty board: a rook in the corner sees its whole rank and file.
    assert_eq!(xiangqi::bits::popcount(get_rook_moves_bb(0, 0)), 17);
    // With a blocker next to it, the ray stops there and includes it.
    let occ = 1u128 << 2;
    let rook = get_rook_moves_bb(0, occ);
    assert_eq!((rook >> 1) & 1, 1);
    assert_eq!((rook >> 2) & 1, 1);
    assert_eq!((rook >> 3) & 1, 0);
    // A cannon needs a screen to reach a target beyond it.
    let occ2 = (1u128 << 2) | (1u128 << 5);
    let cannon = get_cannon_moves_bb(0, occ2);
    assert_eq!((cannon >> 1) & 1, 1); // quiet move before the screen
    assert_eq!((cannon >> 2) & 1, 0); // the screen is not a target
    assert_eq!((cannon >> 3) & 1, 0); // squares behind the screen
    assert_eq!((cannon >> 5) & 1, 1); // the piece beyond it is
}

#[test]
fn test_game_over_states() {
    let mut ongoing = Board::from_fen(
        "rnbakabnr/9/1c5c1/p1p1p1p1p/9/9/P1P1P1P1P/1C5C1/9/RNBAKABNR w - - 0 1",
    );
    assert_eq!(ongoing.check_game_over_state(), GameOutcome::Ongoing);

    // A back-rank mate: after the rook lands on b9, Black has no move
    // and stands in check.
    let mut mated = Board::from_fen("3k5/R8/1R7/9/9/9/9/9/9/4K4 w - - 0 1");
    mated.move_piece(Move::new(19, 1, None));
    assert_eq!(mated.check_game_over_state(), GameOutcome::CheckmateBy(Player::Red));

    // The lone black king has no square to go to but is not in check.
    let mut stale = Board::from_fen("3k5/4R4/9/9/9/9/9/9/9/4K4 b - - 0 1");
    assert_eq!(stale.check_game_over_state(), GameOutcome::Stalemate);
}
