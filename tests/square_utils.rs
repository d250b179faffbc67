use chesslib::square_utils;
use chesslib::square_utils::{
    add_file, add_rank, file_str, is_on_board, rank, rank_str, square_from_string,
    square_to_string,
};

#[test]
fn ranks_and_files() {
    assert_eq!(rank(0), 0);
    assert_eq!(square_utils::file(0), 0);
    assert_eq!(rank(63), 7);
    assert_eq!(square_utils::file(63), 7);
    assert_eq!(rank(28), 3);
    assert_eq!(square_utils::file(28), 4);
    assert_eq!(rank_str(28), '4');
    assert_eq!(file_str(28), 'e');
}

#[test]
fn offsets() {
    assert_eq!(add_rank(4, 2), 20);
    assert_eq!(add_rank(4, -1), -4);
    assert_eq!(add_file(4, 3), 7);
    assert_eq!(add_file(0, -1), -1);
}

#[test]
fn board_bounds() {
    assert!(is_on_board(0, 0));
    assert!(is_on_board(7, 7));
    assert!(!is_on_board(8, 0));
    assert!(!is_on_board(0, -1));
    assert!(!is_on_board(-1, 3));
}

#[test]
fn square_names() {
    assert_eq!(square_from_string("a1"), 0);
    assert_eq!(square_from_string("h1"), 7);
    assert_eq!(square_from_string("e4"), 28);
    assert_eq!(square_from_string("h8"), 63);
    assert_eq!(square_to_string(0), "a1");
    assert_eq!(square_to_string(28), "e4");
    assert_eq!(square_to_string(63), "h8");
    for square in 0..64 {
        assert_eq!(square_from_string(&square_to_string(square)), square);
    }
}
