use catmate::Board;
use catmate::Color;
use catmate::Move;
use catmate::PieceKind;
use catmate::board::pop_count;
use catmate::evaluate::evaluate_board;
use catmate::fen::convert_uci_to_move;
use catmate::fen::parse_fen;
use catmate::moves::generate_legal_moves;
use catmate::moves::generate_moves;
use catmate::search::find_best_move;
use catmate::search::minimax;
use catmate::utils::apply_move;
use catmate::utils::is_checkmate;
use catmate::utils::is_draw;
use catmate::utils::is_fork;
use catmate::utils::is_insufficient_material;
use catmate::utils::is_king_in_check;
use catmate::utils::is_stalemate;
use catmate::utils::undo_move;

const START_FEN: &str = "rnbqkbnr/pppppppp/8/8/8/8/PPPPPPPP/RNBQKBNR w KQkq";

#[test]
fn test_color_flip() {
    assert_eq!(Color::White.flip(), Color::Black);
    assert_eq!(Color::Black.flip(), Color::White);
}

#[test]
fn test_move_display() {
    let m = Move::new(0, 8);
    assert_eq!(m.to_text(), "a1a2");
}

#[test]
fn test_pop_count() {
    assert_eq!(pop_count(0b1111), 4);
    assert_eq!(pop_count(0b0000), 0);
}

#[test]
fn test_evaluate_starting_position() {
    let fen = "rnbqkbnr/pppppppp/8/8/8/8/PPPPPPPP/RNBQKBNR w KQkq";
    let board = parse_fen(fen);
    let score = evaluate_board(&board);
    assert!(score.abs() < 1000);
}

#[test]
fn test_parse_starting_position() {
    let fen = "rnbqkbnr/pppppppp/8/8/8/8/PPPPPPPP/RNBQKBNR w KQkq";
    let board = parse_fen(fen);

    assert!(board.wp != 0);
    assert!(board.wr != 0);
    assert!(board.wk != 0);

    assert!(board.bp != 0);
    assert!(board.bk != 0);

    assert_eq!(board.turn, Color::White);
}

#[test]
fn test_generate_starting_moves() {
    let fen = "rnbqkbnr/pppppppp/8/8/8/8/PPPPPPPP/RNBQKBNR w KQkq";
    let board = parse_fen(fen);
    let moves = generate_moves(&board);

    // 16 pawn moves and 4 knight moves
    assert_eq!(moves.len(), 20);
}

#[test]
fn test_find_best_move() {
    let fen = "rnbqkbnr/pppppppp/8/8/8/8/PPPPPPPP/RNBQKBNR w KQkq";
    let board = parse_fen(fen);
    let mv = find_best_move(board, 2);

    assert!(mv.from != mv.to);
}

#[test]
fn test_apply_move() {
    let fen = "rnbqkbnr/pppppppp/8/8/8/8/PPPPPPPP/RNBQKBNR w KQkq";
    let mut board = parse_fen(fen);
    let original_wp = board.wp;
    let mv = Move::new(12, 20); // e2e3
    let _captured = apply_move(&mut board, mv);

    assert_eq!(board.turn, Color::Black);
    assert!(board.wp != original_wp);
}

#[test]
fn test_is_king_in_check() {
    let board = parse_fen("rnbqkbnr/pppppppp/8/8/8/8/PPPPPPPP/RNBQKBNR w KQkq");
    assert!(!is_king_in_check(&board, Color::White));
    assert!(!is_king_in_check(&board, Color::Black));
}

#[test]
fn test_apply_undo_round_trip() {
    let original = parse_fen(START_FEN);
    let mut board = original;
    let mv = Move::new(12, 28); // e2e4
    let captured = apply_move(&mut board, mv);
    undo_move(&mut board, mv, captured);
    assert_eq!(board, original);
}

#[test]
fn test_apply_undo_round_trip_capture() {
    // A white pawn on d4 takes a black pawn on e5 and the capture is undone.
    let original = parse_fen("rnbqkbnr/pppp1ppp/8/4p3/3P4/8/PPP1PPPP/RNBQKBNR w KQkq");
    let mut board = original;
    let mv = Move::new(27, 36); // d4xe5
    let captured = apply_move(&mut board, mv);
    assert_eq!(captured, Some((Color::Black, PieceKind::Pawn)));
    undo_move(&mut board, mv, captured);
    assert_eq!(board, original);
}

#[test]
fn test_minimax_depth_zero_is_evaluation() {
    let board = parse_fen(START_FEN);
    let mut work = board;
    let direct = evaluate_board(&board);
    let searched = minimax(&mut work, 0, i32::MIN, i32::MAX, true);
    assert_eq!(searched, direct);
    let searched_min = minimax(&mut work, 0, i32::MIN, i32::MAX, false);
    assert_eq!(searched_min, direct);
}

#[test]
fn test_checkmate_and_stalemate_exclusive() {
    // The two-move mate: 1.f3 e5 2.g4 Qh4#.
    let board = parse_fen("rnb1kbnr/pppp1ppp/8/4p3/6Pq/5P2/PPPPP2P/RNBQKBNR w KQkq");
    assert!(is_checkmate(&board));
    assert!(!is_stalemate(&board));
    assert!(generate_legal_moves(&board).is_empty());
}

#[test]
fn test_no_king_never_in_check() {
    // Black has no king; a white rook gives the whole board a sweep.
    let board = parse_fen("8/8/8/3R4/8/8/8/K7 w KQkq");
    assert!(!is_king_in_check(&board, Color::Black));
}

#[test]
fn test_search_is_deterministic() {
    let first = find_best_move(parse_fen(START_FEN), 2);
    let second = find_best_move(parse_fen(START_FEN), 2);
    assert_eq!(first, second);
}

#[test]
fn test_bare_kings_draw() {
    let board = parse_fen("k7/8/8/8/8/8/8/K7 w KQkq");
    assert!(is_insufficient_material(&board));
    assert!(is_draw(&board));
    assert!(!is_stalemate(&board));
}

#[test]
fn test_knight_forks_both_rooks() {
    // A white knight on e4 attacks black rooks on d6 and f6 at once.
    let board = parse_fen("k7/8/3r1r2/8/4N3/8/8/K7 w KQkq");
    let (count, kinds) = is_fork(&board, Color::White);
    assert!(count >= 2);
    assert!(kinds.contains(&PieceKind::Rook));
}

#[test]
fn test_no_fork_in_starting_position() {
    let board = parse_fen(START_FEN);
    let (count, kinds) = is_fork(&board, Color::White);
    assert_eq!(count, 0);
    assert!(kinds.is_empty());
}

#[test]
fn test_bare_kings_exact_evaluation() {
    // Two kings only: the endgame king table alone decides, -30 for b1
    // against -50 for a8, and the bare-kings draw adds nothing.
    let board = parse_fen("k7/8/8/8/8/8/8/1K6 w KQkq");
    assert_eq!(evaluate_board(&board), 20);
}

#[test]
fn test_depth_zero_returns_degenerate_move() {
    let mv = find_best_move(parse_fen(START_FEN), 0);
    assert_eq!(mv.from, mv.to);
}

#[test]
fn test_checkmate_position_search_returns_degenerate_move() {
    let board = parse_fen("rnb1kbnr/pppp1ppp/8/4p3/6Pq/5P2/PPPPP2P/RNBQKBNR w KQkq");
    let mv = find_best_move(board, 2);
    assert_eq!(mv.from, 0);
    assert_eq!(mv.to, 0);
}

#[test]
fn test_parse_database() {
    let text = "* opening book\n\
                rnbqkbnr/pppppppp/8/8/8/8/PPPPPPPP/RNBQKBNR w KQkq : e2e4 d2d4\n\
                rnbqkbnr/pppppppp/8/8/4P3/8/PPPP1PPP/RNBQKBNR b KQkq : e7e5\n";
    let db = catmate::database::parse_database(text);
    assert!(!db.is_empty());
}

#[test]
fn test_opening_lookup_finds_recorded_moves() {
    let text = "aaa : e2e4 d2d4\nbbb : e7e5\naaa : g1f3\n";
    let db = catmate::database::parse_database(text);
    let moves = catmate::database::get_opening_moves(&db, "aaa").unwrap();
    assert_eq!(moves, vec!["e2e4".to_string(), "d2d4".to_string(), "g1f3".to_string()]);
    assert_eq!(catmate::database::get_opening_moves(&db, "ccc"), None);
}

#[test]
fn test_database_skips_comments_and_blank_lines() {
    let text = "* a comment : with a separator\n\n   \nkey : a1a2\n";
    let db = catmate::database::parse_database(text);
    assert_eq!(db.len(), 1);
    assert_eq!(db[0].0, "key");
}

#[test]
fn test_convert_uci_round_trip() {
    let mv = convert_uci_to_move("e2e4").unwrap();
    assert_eq!(mv.from, 12);
    assert_eq!(mv.to, 28);
    assert_eq!(mv.to_text(), "e2e4");
}

#[test]
fn test_convert_uci_rejects_malformed_text() {
    assert_eq!(convert_uci_to_move("e2"), None);
    assert_eq!(convert_uci_to_move("i9i9"), None);
    assert_eq!(convert_uci_to_move(""), None);
}

#[test]
fn test_generate_starting_moves_for_black() {
    let board = parse_fen("rnbqkbnr/pppppppp/8/8/8/8/PPPPPPPP/RNBQKBNR b KQkq");
    let moves = generate_moves(&board);
    assert_eq!(moves.len(), 20);
}

#[test]
fn test_checkmate_evaluation_is_heavily_negative() {
    // White is mated, so the large terminal constant dominates the score.
    let board = parse_fen("rnb1kbnr/pppp1ppp/8/4p3/6Pq/5P2/PPPPP2P/RNBQKBNR w KQkq");
    assert!(evaluate_board(&board) < -800);
}

#[test]
fn test_pawn_push_and_capture() {
    // The white pawn on e4 may push to e5 or take the black pawn on d5.
    let board = parse_fen("k7/8/8/3p4/4P3/8/8/K7 w KQkq");
    let moves = generate_moves(&board);
    assert!(moves.contains(&Move::new(28, 36)));
    assert!(moves.contains(&Move::new(28, 35)));
    assert_eq!(moves.iter().filter(|m| m.from == 28).count(), 2);
}

#[test]
fn test_black_pawn_capture_stays_on_board() {
    // A black pawn on the a-file must not wrap around the board edge to
    // capture the white rook over on the h-file.
    let board = parse_fen("k7/8/8/p7/8/7R/8/K7 b KQkq");
    let moves = generate_moves(&board);
    for mv in &moves {
        assert_ne!(mv.to % 8, 7);
    }
}

#[test]
fn test_double_pawn_push_blocked() {
    // A piece on e3 blocks both the single and the double push from e2.
    let board = parse_fen("k7/8/8/8/8/4n3/4P3/K7 w KQkq");
    let moves = generate_moves(&board);
    for mv in &moves {
        assert_ne!(mv.from, 12);
    }
}
