use chesslib::move_utils::Move;
use chesslib::square_utils::square_from_string;
use chesslib::Game;

fn play(game: &mut Game, from: &str, to: &str) {
    game.execute_move(&Move::standard(square_from_string(from), square_from_string(to)));
}

#[test]
fn black_is_checkmate() {
    let position = Game::start_from_fen("8/8/8/8/8/5KQk/8/8 b - - 0 1").unwrap();
    assert!(
        position.current_player_is_checkmate()
            && position.winner().is_some_and(|c| c == fen::Color::White)
    );
}

#[test]
fn white_is_stalemate() {
    let position = Game::start_from_fen("8/2k5/8/8/8/8/2q5/K7 w - - 0 1").unwrap();
    assert!(position.current_player_is_stalemate());
}

#[test]
fn draw_by_insufficient_material() {
    let position = Game::start_from_fen("8/8/3k4/8/8/8/2K5/8 b - - 0 1").unwrap();
    assert!(position.is_draw() && position.insufficient_material());
}

#[test]
fn draw_by_repetition() {
    let mut game =
        Game::start_from_fen("rnbqkbnr/pppppppp/8/8/8/8/PPPPPPPP/RNBQKBNR w KQkq - 0 1").unwrap();
    play(&mut game, "e2", "e4");
    play(&mut game, "e7", "e5");
    play(&mut game, "e1", "e2");
    play(&mut game, "e8", "e7");
    play(&mut game, "e2", "e1");
    play(&mut game, "e7", "e8");
    play(&mut game, "e1", "e2");
    play(&mut game, "e8", "e7");
    play(&mut game, "e2", "e1");
    play(&mut game, "e7", "e8");
    assert!(game.draw_by_repetition);
    assert!(game.is_draw());
}

#[test]
fn game_hasnt_ended() {
    let position =
        Game::start_from_fen("rnbqkbnr/pppppppp/8/8/8/8/PPPPPPPP/RNBQKBNR w KQkq - 0 1").unwrap();
    assert!(!position.current_player_is_stalemate() && !position.current_player_is_checkmate());
}

#[test]
fn checkmate_is_in_check_without_legal_moves() {
    let position = Game::start_from_fen("8/8/8/8/8/5KQk/8/8 b - - 0 1").unwrap();
    assert!(position.current_player_in_check());
    assert!(chesslib::move_generation::legal_moves(&position.board).is_empty());
    assert!(!position.current_player_is_stalemate());
    assert!(!position.is_draw());
}

#[test]
fn stalemate_is_not_check_and_has_no_winner() {
    let position = Game::start_from_fen("8/2k5/8/8/8/8/2q5/K7 w - - 0 1").unwrap();
    assert!(!position.current_player_in_check());
    assert!(chesslib::move_generation::legal_moves(&position.board).is_empty());
    assert!(!position.current_player_is_checkmate());
    assert!(position.winner().is_none());
    assert!(position.is_draw());
}

#[test]
fn check_with_an_escape_is_neither_mate_nor_stalemate() {
    let position = Game::start_from_fen("4k3/8/8/8/8/8/8/4R1K1 b - - 0 1").unwrap();
    assert!(position.current_player_in_check());
    assert!(!position.current_player_is_checkmate());
    assert!(!position.current_player_is_stalemate());
    assert!(position.winner().is_none());
}

#[test]
fn kings_of_any_number_are_insufficient_material() {
    let position = Game::start_from_fen("k6K/8/8/8/8/8/8/K6k w - - 0 1").unwrap();
    assert!(position.insufficient_material());
    let empty = Game::start_from_fen("8/8/8/8/8/8/8/8 w - - 0 1").unwrap();
    assert!(empty.insufficient_material());
}

#[test]
fn one_pawn_is_sufficient_material() {
    let position = Game::start_from_fen("8/8/3k4/8/8/8/2KP4/8 b - - 0 1").unwrap();
    assert!(!position.insufficient_material());
    assert!(!position.is_draw());
}

#[test]
fn move_counter_of_one_hundred_is_a_draw() {
    let position = Game::start_from_fen("4k3/8/8/8/8/8/3P4/4K3 w - - 0 100").unwrap();
    assert!(position.is_draw());
    let early = Game::start_from_fen("4k3/8/8/8/8/8/3P4/4K3 w - - 0 99").unwrap();
    assert!(!early.is_draw());
}

#[test]
fn repetition_draw_stays_after_the_position_changes() {
    let mut game = Game::new();
    play(&mut game, "g1", "f3");
    play(&mut game, "g8", "f6");
    play(&mut game, "f3", "g1");
    play(&mut game, "f6", "g8");
    assert!(!game.draw_by_repetition);
    play(&mut game, "g1", "f3");
    play(&mut game, "g8", "f6");
    play(&mut game, "f3", "g1");
    assert!(!game.draw_by_repetition);
    play(&mut game, "f6", "g8");
    assert!(game.draw_by_repetition);
    play(&mut game, "e2", "e4");
    play(&mut game, "e7", "e5");
    assert!(game.draw_by_repetition);
    assert!(game.is_draw());
}

#[test]
fn new_game_counts_the_start_position_once() {
    let game = Game::new();
    assert_eq!(game.previous_positions.len(), 1);
    assert_eq!(
        game.previous_positions[0].0,
        "rnbqkbnr/pppppppp/8/8/8/8/PPPPPPPP/RNBQKBNR w"
    );
    assert_eq!(game.previous_positions[0].1, 1);
    assert!(!game.draw_by_repetition);
    assert_eq!(
        game.board.to_fen(),
        "rnbqkbnr/pppppppp/8/8/8/8/PPPPPPPP/RNBQKBNR w KQkq - 0 1"
    );
}

#[test]
fn malformed_text_gives_no_game() {
    assert!(Game::start_from_fen("not a position").is_none());
    assert!(Game::start_from_fen("8/8/8/8/8/8/8/8 x - - 0 1").is_none());
    assert!(Game::start_from_fen("8p/8/8/8/8/8/8/8 w - - 0 1").is_none());
    assert!(Game::start_from_fen("ppppppppp/8/8/8/8/8/8/8 w - - 0 1").is_none());
}

#[test]
fn duplicate_game_is_independent() {
    let mut game = Game::new();
    let copy = game.duplicate();
    play(&mut game, "e2", "e4");
    assert_eq!(copy.previous_positions.len(), 1);
    assert_eq!(game.previous_positions.len(), 2);
    assert_eq!(
        copy.board.to_fen(),
        "rnbqkbnr/pppppppp/8/8/8/8/PPPPPPPP/RNBQKBNR w KQkq - 0 1"
    );
}

#[test]
fn counters_go_on_as_the_notation_defines() {
    let mut game = Game::new();
    play(&mut game, "e2", "e4");
    play(&mut game, "e7", "e5");
    play(&mut game, "g1", "f3");
    assert_eq!(game.board.halfmove_clock, 1);
    play(&mut game, "b8", "c6");
    assert_eq!(
        game.board.to_fen(),
        "r1bqkbnr/pppp1ppp/2n5/4p3/4P3/5N2/PPPP1PPP/RNBQKB1R w KQkq - 2 3"
    );
    play(&mut game, "f3", "e5");
    assert_eq!(game.board.halfmove_clock, 0);
}

#[test]
fn move_number_one_hundred_reached_in_play_is_a_draw() {
    let mut game = Game::start_from_fen("4k3/8/8/8/8/8/3P4/4K3 b - - 0 99").unwrap();
    assert!(!game.is_draw());
    play(&mut game, "e8", "e7");
    assert_eq!(game.board.fullmove_number, 100);
    assert!(game.is_draw());
}

#[test]
fn repetition_ignores_castling_rights() {
    let mut game = Game::start_from_fen("r3k2r/8/8/8/8/8/8/R3K2R w KQkq - 0 1").unwrap();
    play(&mut game, "e1", "f1");
    play(&mut game, "e8", "f8");
    play(&mut game, "f1", "e1");
    play(&mut game, "f8", "e8");
    assert!(!game.draw_by_repetition);
    play(&mut game, "e1", "f1");
    play(&mut game, "e8", "f8");
    play(&mut game, "f1", "e1");
    play(&mut game, "f8", "e8");
    assert!(game.draw_by_repetition);
    assert_eq!(game.board.to_fen(), "r3k2r/8/8/8/8/8/8/R3K2R w - - 8 5");
}

#[test]
fn overrun_in_a_lower_rank_gives_no_game() {
    assert!(Game::start_from_fen("8/ppppppppppppppppp/8/8/8/8/8/8 w - - 0 1").is_none());
    assert!(Game::start_from_fen("8/8/8/8/8/8/8/K7p w - - 0 1").is_none());
    assert!(Game::start_from_fen("8/8/8/8/8/8/8/K7 w - - 0 1").is_some());
}
