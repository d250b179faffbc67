use vstd::prelude::*;

verus! {

/// Rank (row) of a square index: 0 for rank 1, 7 for rank 8.
pub open spec fn rank_of(square: int) -> int {
    square / 8
}

/// File (column) of a square index: 0 for the a-file, 7 for the h-file.
pub open spec fn file_of(square: int) -> int {
    square % 8
}

/// Whether a rank/file pair lies on the 8x8 board.
pub open spec fn on_board(rank: int, file: int) -> bool {
    0 <= rank < 8 && 0 <= file < 8
}

/// The square index of a rank/file pair.
pub open spec fn square_at(rank: int, file: int) -> int {
    rank * 8 + file
}

/// The letter of a file, 'a' to 'h'.
pub open spec fn file_char(square: int) -> char {
    (('a' as u8) + file_of(square) as u8) as char
}

/// The digit of a rank, '1' to '8'.
pub open spec fn rank_char(square: int) -> char {
    (('1' as u8) + rank_of(square) as u8) as char
}

/// The two-character name of a square, such as "e4".
pub open spec fn square_text(square: int) -> Seq<char> {
    seq![file_char(square), rank_char(square)]
}

/// Whether two characters name a square: a file letter and a rank digit.
pub open spec fn is_square_text(s: Seq<char>) -> bool {
    s.len() == 2 && 'a' <= s[0] <= 'h' && '1' <= s[1] <= '8'
}

/// The square named by a two-character text.
pub open spec fn square_of_text(s: Seq<char>) -> int {
    (s[0] as int - 'a' as int) + (s[1] as int - '1' as int) * 8
}

/// The linear offset of a square moved by a number of ranks; the caller checks the bounds.
pub fn add_rank(square: usize, increment: i32) -> (r: i32)
    requires
        square <= i32::MAX,
        i32::MIN <= increment * 8,
        i32::MIN <= square + increment * 8 <= i32::MAX,
    ensures
        r == square + increment * 8,
{
    (square as i32) + increment * 8
}

/// The linear offset of a square moved by a number of files; the caller checks the bounds.
pub fn add_file(square: usize, increment: i32) -> (r: i32)
    requires
        square <= i32::MAX,
        i32::MIN <= square + increment <= i32::MAX,
    ensures
        r == square + increment,
{
    (square as i32) + increment
}

pub fn rank(square: usize) -> (r: usize)
    ensures
        r == rank_of(square as int),
{
    square / 8
}

pub fn file(square: usize) -> (r: usize)
    ensures
        r == file_of(square as int),
{
    square % 8
}

pub fn rank_str(square: usize) -> (r: char)
    requires
        square < 64,
    ensures
        r == rank_char(square as int),
        '1' <= r <= '8',
{
    (('1' as u8) + (rank(square) as u8)) as char
}

pub fn file_str(square: usize) -> (r: char)
    requires
        square < 64,
    ensures
        r == file_char(square as int),
        'a' <= r <= 'h',
{
    (('a' as u8) + (file(square) as u8)) as char
}

pub fn is_on_board(rank: i32, file: i32) -> (r: bool)
    ensures
        r == on_board(rank as int, file as int),
{
    let rank_on_board = 0 <= rank && rank < 8;
    let file_on_board = 0 <= file && file < 8;
    rank_on_board && file_on_board
}

/// The square named by a text such as "e4"; only its first two characters are read.
pub fn square_from_string(square_str: &str) -> (r: usize)
    requires
        square_str@.len() >= 2,
        is_square_text(square_str@.subrange(0, 2)),
    ensures
        r == square_of_text(square_str@.subrange(0, 2)),
        r < 64,
{
    let f = square_str.get_char(0);
    let rk = square_str.get_char(1);
    let mut square: u8 = 0;
    square += (f as u8) - ('a' as u8);
    square += ((rk as u8) - ('1' as u8)) * 8;
    square as usize
}

pub fn square_to_string(square: usize) -> (r: String)
    requires
        square < 64,
    ensures
        r@ == square_text(square as int),
        is_square_text(r@),
        square_of_text(r@) == square,
{
    let mut s = String::new();
    push_char(&mut s, file_str(square));
    push_char(&mut s, rank_str(square));
    s
}

/// Relies on String::push: appends one character.
#[verifier::external_body]
pub(crate) fn push_char(s: &mut String, c: char)
    ensures
        final(s)@ == old(s)@.push(c),
{
    s.push(c)
}

} // verus!
