use chesslib::move_generation::{generate_moves, legal_moves, player_in_check};
use chesslib::move_utils::Move;
use chesslib::square_utils::square_from_string;
use fen::{BoardState, PieceKind};

// returns true iff the superset contains all moves provided in moves
fn contains_moves(superset: &Vec<Move>, moves: &Vec<Move>) -> bool {
    moves.iter().all(|m| superset.contains(m))
}

// returns true iff both lists hold the same moves
fn equal_moves(expected: &Vec<Move>, moves: &Vec<Move>) -> bool {
    contains_moves(expected, moves) && contains_moves(moves, expected)
}

// returns true iff no move in the given list of moves starts at the provided square
fn no_move_starting_at(square: usize, moves: &Vec<Move>) -> bool {
    !moves.iter().any(|m| m.start_square == square)
}

// returns true iff every move from square in moves is among the expected ones
fn moves_starting_from(square: usize, expected: &Vec<Move>, moves: &Vec<Move>) -> bool {
    moves.iter().all(|m| m.start_square != square || expected.contains(m))
}

fn board(text: &str) -> BoardState {
    BoardState::from_fen(text).unwrap()
}

fn std_move(from: &str, to: &str) -> Move {
    Move::standard(square_from_string(from), square_from_string(to))
}

fn castle(from: &str, to: &str) -> Move {
    Move {
        start_square: square_from_string(from),
        end_square: square_from_string(to),
        promotion: None,
        is_en_passant: false,
        castles: true,
    }
}

#[test]
fn bishop_in_corner() {
    let position = board("8/8/8/8/8/8/8/B7 w - - 0 1");
    let legal_moves = legal_moves(&position);
    let expected_moves: Vec<Move> = vec![
        std_move("a1", "b2"),
        std_move("a1", "c3"),
        std_move("a1", "d4"),
        std_move("a1", "e5"),
        std_move("a1", "f6"),
        std_move("a1", "g7"),
        std_move("a1", "h8"),
    ];
    assert!(contains_moves(&legal_moves, &expected_moves));
}

#[test]
fn bishop_in_corner_has_exactly_the_diagonal() {
    let position = board("8/8/8/8/8/8/8/B7 w - - 0 1");
    let legal_moves = legal_moves(&position);
    let expected_moves: Vec<Move> = vec![
        std_move("a1", "b2"),
        std_move("a1", "c3"),
        std_move("a1", "d4"),
        std_move("a1", "e5"),
        std_move("a1", "f6"),
        std_move("a1", "g7"),
        std_move("a1", "h8"),
    ];
    assert!(equal_moves(&legal_moves, &expected_moves), "{:?}", legal_moves);
    assert_eq!(legal_moves.len(), 7);
}

#[test]
fn blocked_bishop() {
    let position = board("k7/8/8/2P1P3/3B4/2P1P3/8/K7 w - - 0 1");
    let legal_moves = legal_moves(&position);
    assert!(
        no_move_starting_at(square_from_string("d4"), &legal_moves),
        "{:?}",
        legal_moves
    );
}

#[test]
fn white_can_castle_queen_and_kingside() {
    let position = board("r3k2r/8/8/8/8/8/8/R3K2R w KQkq - 0 1");
    let legal_moves = legal_moves(&position);
    let expected_moves: Vec<Move> = vec![castle("e1", "c1"), castle("e1", "g1")];
    assert!(contains_moves(&legal_moves, &expected_moves), "{:?}", legal_moves);
}

#[test]
fn black_can_castle_queen_and_kingside() {
    let position = board("r3k2r/8/8/8/8/8/8/R3K2R b KQkq - 0 1");
    let legal_moves = legal_moves(&position);
    let expected_moves: Vec<Move> = vec![castle("e8", "c8"), castle("e8", "g8")];
    assert!(contains_moves(&legal_moves, &expected_moves), "{:?}", legal_moves);
}

// white can only castle short, the long castle would go through a check
#[test]
fn white_cant_castle_through_check() {
    let position = board("r3k2r/8/8/8/2r5/8/8/R3K2R w KQkq - 0 1");
    let legal_moves = legal_moves(&position);
    let unwanted_move: Vec<Move> = vec![castle("e1", "c1")];
    let wanted_move: Vec<Move> = vec![castle("e1", "g1")];
    assert!(
        !contains_moves(&legal_moves, &unwanted_move)
            && contains_moves(&legal_moves, &wanted_move),
        "{:?}",
        legal_moves
    );
}

// white cant castle at all because both sides would be through a check
#[test]
fn white_cant_castle_through_check_2() {
    let position = board("r3k2r/8/8/8/2qr4/8/8/R3K2R w KQkq - 0 1");
    let legal_moves = legal_moves(&position);
    assert!(!legal_moves.contains(&castle("e1", "c1")), "{:?}", legal_moves);
    assert!(!legal_moves.contains(&castle("e1", "g1")), "{:?}", legal_moves);
}

#[test]
fn castling_needs_the_right_of_its_direction() {
    let position = board("r3k2r/8/8/8/8/8/8/R3K2R w K - 0 1");
    let legal_moves = legal_moves(&position);
    assert!(legal_moves.contains(&castle("e1", "g1")), "{:?}", legal_moves);
    assert!(!legal_moves.contains(&castle("e1", "c1")), "{:?}", legal_moves);
    let position = board("r3k2r/8/8/8/8/8/8/R3K2R w Q - 0 1");
    let queenside_only = chesslib::move_generation::legal_moves(&position);
    assert!(!queenside_only.contains(&castle("e1", "g1")), "{:?}", queenside_only);
    assert!(queenside_only.contains(&castle("e1", "c1")), "{:?}", queenside_only);
}

#[test]
fn no_castling_out_of_check_or_past_a_piece() {
    let in_check = board("4r1k1/8/8/8/8/8/8/R3K2R w KQ - 0 1");
    let legal_moves = legal_moves(&in_check);
    assert!(!legal_moves.iter().any(|m| m.castles), "{:?}", legal_moves);
    let blocked = board("4k3/8/8/8/8/8/8/R2QKB1R w KQ - 0 1");
    let blocked_moves = chesslib::move_generation::legal_moves(&blocked);
    assert!(!blocked_moves.iter().any(|m| m.castles), "{:?}", blocked_moves);
}

#[test]
fn castling_is_left_out_when_not_asked_for() {
    let position = board("r3k2r/8/8/8/8/8/8/R3K2R w KQkq - 0 1");
    let with = generate_moves(&position, true);
    let without = generate_moves(&position, false);
    assert_eq!(with.iter().filter(|m| m.castles).count(), 2);
    assert_eq!(without.iter().filter(|m| m.castles).count(), 0);
    assert_eq!(with.len(), without.len() + 2);
}

#[test]
fn knight_moves_startpos() {
    let position = board("rnbqkbnr/pppppppp/8/8/8/8/PPPPPPPP/RNBQKBNR w KQkq - 0 1");
    let legal_moves = legal_moves(&position);
    let knight_square = square_from_string("b1");
    let expected_moves: Vec<Move> = vec![std_move("b1", "a3"), std_move("b1", "c3")];
    assert!(moves_starting_from(knight_square, &expected_moves, &legal_moves));
}

#[test]
fn knight_blocked_by_own_pawns() {
    let position = board("k7/8/2p1p3/1p3p2/3n4/1p3p2/2p1p3/K7 b - - 0 1");
    let legal_moves = legal_moves(&position);
    let knight_square = square_from_string("d4");
    assert!(no_move_starting_at(knight_square, &legal_moves));
}

#[test]
fn octopus_knight() {
    let position = board("k7/8/8/8/4N3/8/8/K7 w - - 0 1");
    let legal_moves = legal_moves(&position);
    let knight_square = square_from_string("e4");
    let expected_moves: Vec<Move> = vec![
        std_move("e4", "f2"),
        std_move("e4", "g3"),
        std_move("e4", "d2"),
        std_move("e4", "c3"),
        std_move("e4", "c5"),
        std_move("e4", "d6"),
        std_move("e4", "f6"),
        std_move("e4", "g5"),
    ];
    assert!(moves_starting_from(knight_square, &expected_moves, &legal_moves));
}

#[test]
fn start_position_has_twenty_moves() {
    let position = board("rnbqkbnr/pppppppp/8/8/8/8/PPPPPPPP/RNBQKBNR w KQkq - 0 1");
    assert_eq!(legal_moves(&position).len(), 20);
}

// in the standard start position the pawns of the white player can move one or two squares
#[test]
fn standard_pos_pawn_moves() {
    let position = board("rnbqkbnr/pppppppp/8/8/8/8/PPPPPPPP/RNBQKBNR w KQkq - 0 1");
    let legal_moves = legal_moves(&position);
    let mut expected_moves: Vec<Move> = Vec::new();
    for file in ["a", "b", "c", "d", "e", "f", "g", "h"] {
        expected_moves.push(std_move(&format!("{}2", file), &format!("{}3", file)));
        expected_moves.push(std_move(&format!("{}2", file), &format!("{}4", file)));
    }
    assert_eq!(expected_moves.len(), 16);
    assert!(contains_moves(&legal_moves, &expected_moves));
}

// pawns cannot capture the way they normally move
#[test]
fn blockade() {
    let position = board("8/8/4p3/4P3/8/8/8/8 w - - 0 1");
    let legal_moves = legal_moves(&position);
    let expected_moves: Vec<Move> = Vec::new();
    assert!(equal_moves(&legal_moves, &expected_moves));
}

#[test]
fn captures_in_center_of_board() {
    let position = board("8/8/8/8/4p3/3P4/8/8 w - - 0 1");
    let legal_moves = legal_moves(&position);
    let expected_moves: Vec<Move> = vec![std_move("d3", "e4"), std_move("d3", "d4")];
    assert!(contains_moves(&legal_moves, &expected_moves));
}

#[test]
fn captures_on_edge_of_board() {
    let position = board("8/8/2p2p2/1P4P1/p6p/1P4P1/8/8 w - - 0 1");
    let legal_moves = legal_moves(&position);
    let expected_moves: Vec<Move> = vec![
        std_move("b3", "b4"),
        std_move("b3", "a4"),
        std_move("b5", "c6"),
        std_move("b5", "b6"),
        std_move("g5", "f6"),
        std_move("g5", "g6"),
        std_move("g3", "g4"),
        std_move("g3", "h4"),
    ];
    assert!(equal_moves(&legal_moves, &expected_moves), "{:?}", legal_moves);
}

#[test]
fn pawn_does_not_capture_its_own_side() {
    let position = board("8/8/8/8/2P1P3/3P4/8/8 w - - 0 1");
    let legal_moves = legal_moves(&position);
    assert!(!legal_moves.contains(&std_move("d3", "c4")), "{:?}", legal_moves);
    assert!(!legal_moves.contains(&std_move("d3", "e4")), "{:?}", legal_moves);
    assert!(legal_moves.contains(&std_move("d3", "d4")), "{:?}", legal_moves);
}

#[test]
fn promotion() {
    let position = board("8/6P1/8/8/8/8/8/8 w - - 0 1");
    let legal_moves = legal_moves(&position);
    let promote = |kind: PieceKind| Move {
        start_square: square_from_string("g7"),
        end_square: square_from_string("g8"),
        promotion: Some(kind),
        is_en_passant: false,
        castles: false,
    };
    let expected_moves: Vec<Move> = vec![
        promote(PieceKind::Rook),
        promote(PieceKind::Bishop),
        promote(PieceKind::Knight),
        promote(PieceKind::Queen),
    ];
    assert!(equal_moves(&legal_moves, &expected_moves));
}

#[test]
fn black_pawn_double_step_and_promotion_capture() {
    let position = board("8/3p4/8/8/8/8/1p6/R7 b - - 0 1");
    let legal_moves = legal_moves(&position);
    assert!(legal_moves.contains(&std_move("d7", "d6")));
    assert!(legal_moves.contains(&std_move("d7", "d5")));
    let captures = legal_moves
        .iter()
        .filter(|m| m.start_square == square_from_string("b2") && m.end_square == square_from_string("a1"))
        .count();
    let pushes = legal_moves
        .iter()
        .filter(|m| m.start_square == square_from_string("b2") && m.end_square == square_from_string("b1"))
        .count();
    assert_eq!(captures, 4);
    assert_eq!(pushes, 4);
    assert_eq!(legal_moves.len(), 10);
}

// in this position the pawn could move one square forwards
// this would however leave the white king in check and as such
// is an illegal move
#[test]
fn would_leave_in_check() {
    let position = board("8/8/1k6/1b6/8/3P4/4K3/8 w - - 0 1");
    let legal_moves = legal_moves(&position);
    let illegal_move: Vec<Move> = vec![std_move("d3", "d4")];
    assert!(!contains_moves(&legal_moves, &illegal_move), "{:?}", legal_moves);
}

#[test]
fn en_passant() {
    let position = board("1k6/8/8/4pP2/8/8/8/1K6 w - e6 0 1");
    let legal_moves = legal_moves(&position);
    let expected_moves: Vec<Move> = vec![Move {
        start_square: square_from_string("f5"),
        end_square: square_from_string("e6"),
        promotion: None,
        is_en_passant: true,
        castles: false,
    }];
    assert!(contains_moves(&legal_moves, &expected_moves), "{:?}", legal_moves);
}

#[test]
fn exactly_one_en_passant_capture() {
    let position = board("1k6/8/8/4pP2/8/8/8/1K6 w - e6 0 1");
    let legal_moves = legal_moves(&position);
    let en_passant: Vec<&Move> = legal_moves.iter().filter(|m| m.is_en_passant).collect();
    assert_eq!(en_passant.len(), 1);
    assert_eq!(en_passant[0].start_square, square_from_string("f5"));
    assert_eq!(en_passant[0].end_square, square_from_string("e6"));
}

#[test]
fn pinned_queen() {
    let position = board("8/8/8/2k5/3q4/8/5B2/4K3 b - - 0 1");
    let legal_moves = legal_moves(&position);
    let expected_moves: Vec<Move> = vec![std_move("d4", "e3"), std_move("d4", "f2")];
    assert!(moves_starting_from(square_from_string("d4"), &expected_moves, &legal_moves));
}

#[test]
fn regular_moves() {
    let position = board("8/8/8/8/3R4/8/8/8 w - - 0 1");
    let legal_moves = legal_moves(&position);
    let targets = [
        "d5", "d6", "d7", "d8", "d3", "d2", "d1", "e4", "f4", "g4", "h4", "a4", "b4", "c4",
    ];
    let expected_moves: Vec<Move> = targets.iter().map(|t| std_move("d4", t)).collect();
    assert!(contains_moves(&legal_moves, &expected_moves));
}

#[test]
fn cannot_move_out_of_board() {
    let position = board("r7/8/8/8/8/8/8/8 b - - 0 1");
    let legal_moves = legal_moves(&position);
    let targets = [
        "b8", "c8", "d8", "e8", "f8", "g8", "h8", "a1", "a2", "a3", "a4", "a5", "a6", "a7",
    ];
    let expected_moves: Vec<Move> = targets.iter().map(|t| std_move("a8", t)).collect();
    assert!(equal_moves(&legal_moves, &expected_moves), "{:?}", legal_moves);
}

#[test]
fn queen_in_center_has_twenty_seven_moves() {
    let position = board("8/8/8/8/3Q4/8/8/8 w - - 0 1");
    assert_eq!(legal_moves(&position).len(), 27);
}

#[test]
fn king_in_corner_has_three_moves() {
    let position = board("8/8/8/8/8/8/8/K7 w - - 0 1");
    let legal_moves = legal_moves(&position);
    let expected_moves: Vec<Move> = vec![
        std_move("a1", "a2"),
        std_move("a1", "b1"),
        std_move("a1", "b2"),
    ];
    assert!(equal_moves(&legal_moves, &expected_moves), "{:?}", legal_moves);
}

#[test]
fn no_legal_move_leaves_the_king_attacked() {
    let positions = [
        "rnbqkbnr/pppppppp/8/8/8/8/PPPPPPPP/RNBQKBNR w KQkq - 0 1",
        "8/8/1k6/1b6/8/3P4/4K3/8 w - - 0 1",
        "r3k2r/8/8/8/2qr4/8/8/R3K2R w KQkq - 0 1",
        "8/8/8/2k5/3q4/8/5B2/4K3 b - - 0 1",
    ];
    for text in positions {
        let position = board(text);
        for mov in legal_moves(&position) {
            let mut after = board(text);
            mov.execute(&mut after);
            assert!(!player_in_check(&after), "{} {:?}", text, mov);
        }
    }
}

#[test]
fn check_is_seen_by_the_side_to_move() {
    // white to move with the black king on e8 attacked by the rook on e1
    let position = board("4k3/8/8/8/8/8/8/4R1K1 w - - 0 1");
    assert!(player_in_check(&position));
    let position = board("4k3/8/8/8/8/8/8/3R2K1 w - - 0 1");
    assert!(!player_in_check(&position));
    // a position without the king is never in check
    let position = board("8/8/8/8/8/8/8/4R1K1 w - - 0 1");
    assert!(!player_in_check(&position));
}

#[test]
fn moves_are_distinct_and_ordered_by_start_square() {
    let positions = [
        "rnbqkbnr/pppppppp/8/8/8/8/PPPPPPPP/RNBQKBNR w KQkq - 0 1",
        "r3k2r/8/8/8/8/8/8/R3K2R w KQkq - 0 1",
        "1k6/8/8/4pP2/8/8/8/1K6 w - e6 0 1",
        "8/3p4/8/8/8/8/1p6/R7 b - - 0 1",
    ];
    for text in positions {
        let position = board(text);
        for moves in [legal_moves(&position), generate_moves(&position, true)] {
            for i in 0..moves.len() {
                for j in (i + 1)..moves.len() {
                    assert!(moves[i] != moves[j], "{} {:?}", text, moves[i]);
                    assert!(moves[i].start_square <= moves[j].start_square, "{}", text);
                }
            }
        }
    }
}

#[test]
fn castling_follows_the_kings_steps() {
    let position = board("r3k2r/8/8/8/8/8/8/R3K2R w KQkq - 0 1");
    let moves = generate_moves(&position, true);
    let king = square_from_string("e1");
    let from_king: Vec<&Move> = moves.iter().filter(|m| m.start_square == king).collect();
    let first_castle = from_king.iter().position(|m| m.castles).unwrap();
    assert!(from_king[..first_castle].iter().all(|m| !m.castles));
    assert!(from_king[first_castle..].iter().all(|m| m.castles));
    assert_eq!(from_king.len() - first_castle, 2);
}
