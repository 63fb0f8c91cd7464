use xiangqi::board::Board;
use xiangqi::moves::Move;
use xiangqi::opening_book::{load_opening_book, query_opening_book};
use xiangqi::uci::{parse_go_command, parse_move_string, parse_uci_move, get_square_notation};

const START_FEN: &str = "rnbakabnr/9/1c5c1/p1p1p1p1p/9/9/P1P1P1P1P/1C5C1/9/RNBAKABNR w - - 0 1";

fn words(items: &[&str]) -> Vec<String> {
    items.iter().map(|s| s.to_string()).collect()
}

#[test]
fn test_parse_uci_move() {
    let board = Board::from_fen(START_FEN);
    let mv = parse_uci_move(&board, "h2e2").expect("well-formed move");
    assert_eq!(mv.from_sq(), 70);
    assert_eq!(mv.to_sq(), 67);
    assert!(!mv.is_capture());
    assert!(parse_uci_move(&board, "h2e").is_none());
    assert!(parse_uci_move(&board, "z2e2").is_none());
}

#[test]
fn test_parse_move_string_matches_legal_move() {
    let mut board = Board::from_fen(START_FEN);
    let legal = board.generate_legal_moves();
    let mv = parse_move_string("h2e2", &legal).expect("a legal opening move");
    assert_eq!(mv.from_sq(), 70);
    assert_eq!(mv.to_sq(), 67);
    assert!(parse_move_string("a0a9", &legal).is_none());
}

#[test]
fn test_square_notation() {
    assert_eq!(get_square_notation(81), "a0");
    assert_eq!(get_square_notation(8), "i9");
    assert_eq!(get_square_notation(40), "e5");
}

#[test]
fn test_parse_go_depth_and_movetime() {
    let board = Board::from_fen(START_FEN);
    let (depth, time) = parse_go_command(&words(&["go", "depth", "6"]), &board);
    assert_eq!(depth, 6);
    assert_eq!(time, None);

    let (d2, t2) = parse_go_command(&words(&["go", "movetime", "2500"]), &board);
    assert_eq!(d2, 64);
    assert_eq!(t2, Some(2500));

    let (d3, t3) = parse_go_command(&words(&["go", "infinite"]), &board);
    assert_eq!(d3, i32::MAX);
    assert_eq!(t3, None);
}

#[test]
fn test_parse_go_clock_fields() {
    let board = Board::from_fen(START_FEN);
    let (_, t) = parse_go_command(
        &words(&["go", "wtime", "60000", "btime", "50000", "winc", "100", "binc", "200"]),
        &board,
    );
    // Red to move: 60000 / 20 + 100.
    assert_eq!(t, Some(3100));

    let (_, t2) = parse_go_command(
        &words(&["go", "wtime", "60000", "movestogo", "30"]),
        &board,
    );
    assert_eq!(t2, Some(2000));

    let mut black_board = Board::from_fen(START_FEN);
    let legal = black_board.generate_legal_moves();
    black_board.move_piece(legal.get(0));
    let (_, t3) = parse_go_command(
        &words(&["go", "wtime", "60000", "btime", "40000"]),
        &black_board,
    );
    assert_eq!(t3, Some(2000));
}

#[test]
fn test_opening_book_load_and_query() {
    let board = Board::from_fen(START_FEN);
    let hash = board.hash_key;
    let mut bytes: Vec<u8> = Vec::new();
    bytes.extend_from_slice(&hash.to_le_bytes());
    bytes.extend_from_slice(&70u32.to_le_bytes());
    bytes.extend_from_slice(&67u32.to_le_bytes());
    let book = load_opening_book(&bytes).expect("one whole record");
    assert_eq!(book.len(), 1);
    assert_eq!(book[0].hash, hash);
    assert_eq!(book[0].mv.from_sq(), 70);
    assert_eq!(book[0].mv.to_sq(), 67);

    let picked = query_opening_book(&book, &board).expect("position is in the book");
    assert_eq!(picked.from_sq(), 70);
    assert_eq!(picked.to_sq(), 67);

    let mut other = Board::from_fen("3k5/9/9/9/9/9/9/9/9/3K5 w - - 0 1");
    let _ = &mut other;
    assert!(query_opening_book(&book, &other).is_none());
}

#[test]
fn test_opening_book_rejects_bad_blobs() {
    // A ragged tail.
    let bytes = vec![0u8; 15];
    assert!(load_opening_book(&bytes).is_none());
    // A square off the board.
    let mut bad: Vec<u8> = Vec::new();
    bad.extend_from_slice(&1u64.to_le_bytes());
    bad.extend_from_slice(&200u32.to_le_bytes());
    bad.extend_from_slice(&3u32.to_le_bytes());
    assert!(load_opening_book(&bad).is_none());
}

#[test]
fn test_book_move_ends_search_at_root() {
    let mut board = Board::from_fen(START_FEN);
    let hash = board.hash_key;
    let mut bytes: Vec<u8> = Vec::new();
    bytes.extend_from_slice(&hash.to_le_bytes());
    bytes.extend_from_slice(&70u32.to_le_bytes());
    bytes.extend_from_slice(&67u32.to_le_bytes());
    let book = load_opening_book(&bytes).expect("one record");
    let mut engine = xiangqi::engine::Engine::new(1);
    engine.book = book;
    let (best, score, _) = engine.search(&mut board, 3, None);
    assert_eq!(score, 0);
    assert_eq!(best.from_sq(), 70);
    assert_eq!(best.to_sq(), 67);
    let _ = Move::new(0, 0, None);
}
