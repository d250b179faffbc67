use vstd::prelude::*;
use fen::{BoardState, Color, Piece, PieceKind};
use crate::board::{duplicate, inverse_color, model, opponent, same_color, BoardModel};
use crate::move_utils::{
    castling_right, executed, move_wf, standard_move, Move,
};
use crate::square_utils::{file, file_of, is_on_board, on_board, rank, rank_of, square_at};

verus! {

/// `k` steps in direction `d` (-1, 0 or 1).
pub open spec fn scale(k: int, d: int) -> int {
    if d > 0 {
        k
    } else if d < 0 {
        -k
    } else {
        0
    }
}

/// The square `k` steps from `s` along the direction (`df` files, `dr` ranks).
pub open spec fn ray_square(s: int, df: int, dr: int, k: int) -> int {
    square_at(rank_of(s) + scale(k, dr), file_of(s) + scale(k, df))
}

pub open spec fn ray_on_board(s: int, df: int, dr: int, k: int) -> bool {
    on_board(rank_of(s) + scale(k, dr), file_of(s) + scale(k, df))
}

pub open spec fn is_empty(b: BoardModel, t: int) -> bool {
    b.pieces[t] is None
}

/// The square holds a piece of the side to move.
pub open spec fn is_friendly(b: BoardModel, t: int) -> bool {
    b.pieces[t] matches Some(p) && p.color == b.side_to_play
}

/// The square holds a piece of the side not to move.
pub open spec fn is_enemy(b: BoardModel, t: int) -> bool {
    b.pieces[t] matches Some(p) && p.color != b.side_to_play
}

pub open spec fn is_standard(m: Move) -> bool {
    m.promotion is None && !m.is_en_passant && !m.castles
}

/// A piece on `s` can reach the square `k` steps along the direction: it is on the board,
/// the squares before it are empty, and it holds no piece of the side to move.
pub open spec fn ray_reaches(b: BoardModel, s: int, df: int, dr: int, k: int) -> bool {
    &&& 1 <= k
    &&& ray_on_board(s, df, dr, k)
    &&& forall|j: int| 1 <= j < k ==> is_empty(b, #[trigger] ray_square(s, df, dr, j))
    &&& !is_friendly(b, ray_square(s, df, dr, k))
}

/// A move along one direction, of at most `max` steps.
pub open spec fn ray_move(b: BoardModel, m: Move, df: int, dr: int, max: int) -> bool {
    &&& is_standard(m)
    &&& exists|k: int|
        k <= max && #[trigger] ray_reaches(b, m.start_square as int, df, dr, k) && m.end_square
            == ray_square(m.start_square as int, df, dr, k)
}

/// Pushing a move adds exactly that move to what a sequence contains.
proof fn lemma_push_contains(s: Seq<Move>, v: Move)
    ensures
        forall|m: Move| #[trigger] s.push(v).contains(m) <==> s.contains(m) || m == v,
{
    assert forall|m: Move| #[trigger] s.push(v).contains(m) implies s.contains(m) || m == v by {
        let i = choose|i: int| 0 <= i < s.push(v).len() && s.push(v)[i] == m;
        if i < s.len() {
            assert(s[i] == m);
        }
    }
    assert forall|m: Move| s.contains(m) || m == v implies #[trigger] s.push(v).contains(m) by {
        if s.contains(m) {
            let i = choose|i: int| 0 <= i < s.len() && s[i] == m;
            assert(s.push(v)[i] == m);
        } else {
            assert(s.push(v)[s.len() as int] == m);
        }
    }
}

/// Appends the moves along one direction from `square`, at most `max_distance` steps: a ray
/// stops at the first occupied square and takes it only if it holds an enemy piece.
fn straight_line_moves(
    board: &BoardState,
    square: usize,
    df: i32,
    dr: i32,
    max_distance: usize,
    moves: &mut Vec<Move>,
)
    requires
        old(moves)@.no_duplicates(),
        model(*board).wf(),
        square < 64,
        -1 <= df <= 1,
        -1 <= dr <= 1,
        max_distance <= 8,
    ensures
        forall|m: Move| #[trigger]
            final(moves)@.contains(m) <==> old(moves)@.contains(m) || (m.start_square == square
                && ray_move(model(*board), m, df as int, dr as int, max_distance as int)),
        final(moves)@.no_duplicates(),
        appends_from(old(moves)@, final(moves)@, square as int),
{
    let ghost b = model(*board);
    let ghost s = square as int;
    let ghost (x, y) = (df as int, dr as int);
    let ghost old_moves = moves@;
    let r0 = rank(square) as i32;
    let f0 = file(square) as i32;
    let mut k: usize = 0;
    let mut tr: i32 = r0;
    let mut tf: i32 = f0;
    loop
        invariant_except_break
            tr == rank_of(s) + scale(k as int, y),
            tf == file_of(s) + scale(k as int, x),
            forall|j: int|
                1 <= j <= k ==> ray_on_board(s, x, y, j) && is_empty(
                    b,
                    #[trigger] ray_square(s, x, y, j),
                ),
            forall|m: Move| #[trigger]
                moves@.contains(m) <==> old_moves.contains(m) || (m.start_square == square
                    && ray_move(b, m, x, y, k as int)),
        invariant
            moves@.no_duplicates(),
            appends_from(old_moves, moves@, s),
            b == model(*board),
            b.wf(),
            s == square,
            square < 64,
            x == df && y == dr,
            -1 <= df <= 1,
            -1 <= dr <= 1,
            max_distance <= 8,
            k <= max_distance,
            r0 == rank_of(s),
            f0 == file_of(s),
        ensures
            forall|m: Move| #[trigger]
                moves@.contains(m) <==> old_moves.contains(m) || (m.start_square == square
                    && ray_move(b, m, x, y, max_distance as int)),
        decreases max_distance - k,
    {
        if k >= max_distance {
            break;
        }
        tr = tr + dr;
        tf = tf + df;
        let ghost k1 = k as int + 1;
        if !is_on_board(tr, tf) {
            assert forall|j: int| j > k implies !ray_on_board(s, x, y, j) by {}
            break;
        }
        let target = (tr * 8 + tf) as usize;
        assert(target == ray_square(s, x, y, k1));
        let mv = Move::standard(square, target);
        match &board.pieces[target] {
            Some(p) => {
                // the ray ends here, on a capture or on a piece of the mover's own side
                let enemy = !same_color(&p.color, &board.side_to_play);
                let ghost before = moves@;
                if enemy {
                    assert(ray_reaches(b, s, x, y, k1));
                    push_move(moves, mv);
                } else {
                    assert(!ray_reaches(b, s, x, y, k1));
                }
                assert forall|m: Move| #[trigger]
                    moves@.contains(m) implies old_moves.contains(m) || (m.start_square == square
                        && ray_move(b, m, x, y, max_distance as int)) by {
                    if m == mv && enemy {
                        assert(ray_reaches(b, m.start_square as int, x, y, k1));
                    } else if !old_moves.contains(m) {
                        assert(before.contains(m));
                        let j = choose|j: int|
                            j <= k && #[trigger] ray_reaches(b, s, x, y, j) && m.end_square
                                == ray_square(s, x, y, j);
                        assert(ray_reaches(b, m.start_square as int, x, y, j));
                    }
                }
                assert forall|m: Move|
                    old_moves.contains(m) || (m.start_square == square && ray_move(
                        b,
                        m,
                        x,
                        y,
                        max_distance as int,
                    )) implies #[trigger] moves@.contains(m) by {
                    if !old_moves.contains(m) {
                        let j = choose|j: int|
                            j <= max_distance && #[trigger] ray_reaches(b, s, x, y, j)
                                && m.end_square == ray_square(s, x, y, j);
                        if j > k1 {
                            assert(!is_empty(b, ray_square(s, x, y, k1)));
                        } else if j <= k {
                            assert(ray_reaches(b, m.start_square as int, x, y, j));
                            assert(before.contains(m));
                        } else {
                            assert(m == mv);
                        }
                    } else {
                        assert(before.contains(m));
                    }
                }
                break;
            },
            None => {
                assert(ray_reaches(b, s, x, y, k1));
                push_move(moves, mv);
                k = k + 1;
                assert forall|m: Move| #[trigger]
                    moves@.contains(m) <==> old_moves.contains(m) || (m.start_square == square
                        && ray_move(b, m, x, y, k as int)) by {
                    if m.start_square == square && ray_move(b, m, x, y, k as int) && m != mv {
                        let j = choose|j: int|
                            j <= k && #[trigger] ray_reaches(b, s, x, y, j) && m.end_square
                                == ray_square(s, x, y, j);
                        assert(ray_reaches(b, m.start_square as int, x, y, j));
                    }
                    if m == mv {
                        assert(ray_reaches(b, m.start_square as int, x, y, k1));
                    }
                }
            },
        }
    }
}

/// A leap by a fixed offset (`df` files, `dr` ranks) to a square without a piece of the
/// side to move.
pub open spec fn jump(b: BoardModel, m: Move, df: int, dr: int) -> bool {
    let s = m.start_square as int;
    &&& is_standard(m)
    &&& on_board(rank_of(s) + dr, file_of(s) + df)
    &&& m.end_square == square_at(rank_of(s) + dr, file_of(s) + df)
    &&& !is_friendly(b, m.end_square as int)
}

pub open spec fn knight_move(b: BoardModel, m: Move) -> bool {
    ||| jump(b, m, 2, 1)
    ||| jump(b, m, 2, -1)
    ||| jump(b, m, -2, 1)
    ||| jump(b, m, -2, -1)
    ||| jump(b, m, 1, 2)
    ||| jump(b, m, 1, -2)
    ||| jump(b, m, -1, 2)
    ||| jump(b, m, -1, -2)
}

pub open spec fn bishop_move(b: BoardModel, m: Move) -> bool {
    ||| ray_move(b, m, 1, 1, 8)
    ||| ray_move(b, m, 1, -1, 8)
    ||| ray_move(b, m, -1, 1, 8)
    ||| ray_move(b, m, -1, -1, 8)
}

pub open spec fn rook_move(b: BoardModel, m: Move) -> bool {
    ||| ray_move(b, m, 1, 0, 8)
    ||| ray_move(b, m, 0, -1, 8)
    ||| ray_move(b, m, -1, 0, 8)
    ||| ray_move(b, m, 0, 1, 8)
}

/// A king's step to one of the eight neighbouring squares.
pub open spec fn king_step(b: BoardModel, m: Move) -> bool {
    ||| rook_step(b, m)
    ||| ray_move(b, m, 1, 1, 1)
    ||| ray_move(b, m, 1, -1, 1)
    ||| ray_move(b, m, -1, 1, 1)
    ||| ray_move(b, m, -1, -1, 1)
}

pub open spec fn rook_step(b: BoardModel, m: Move) -> bool {
    ||| ray_move(b, m, 1, 0, 1)
    ||| ray_move(b, m, 0, -1, 1)
    ||| ray_move(b, m, -1, 0, 1)
    ||| ray_move(b, m, 0, 1, 1)
}

/// The rank direction in which the pawns of a side advance.
pub open spec fn pawn_dir(c: Color) -> int {
    if c is White {
        1
    } else {
        -1
    }
}

pub open spec fn pawn_start_rank(c: Color) -> int {
    if c is White {
        1
    } else {
        6
    }
}

pub open spec fn promotion_rank(c: Color) -> int {
    if c is White {
        7
    } else {
        0
    }
}

pub open spec fn is_promotion_piece(k: PieceKind) -> bool {
    k is Queen || k is Knight || k is Bishop || k is Rook
}

/// A pawn move reaching the far rank names one of the four promotion pieces; any other
/// names none.
pub open spec fn promotes_ok(m: Move, c: Color) -> bool {
    if rank_of(m.end_square as int) == promotion_rank(c) {
        m.promotion matches Some(k) && is_promotion_piece(k)
    } else {
        m.promotion is None
    }
}

/// A pawn's advance: one step to an empty square, or two from its starting rank over two
/// empty squares.
pub open spec fn pawn_push(b: BoardModel, m: Move, c: Color) -> bool {
    let s = m.start_square as int;
    let d = pawn_dir(c);
    &&& !m.is_en_passant
    &&& !m.castles
    &&& promotes_ok(m, c)
    &&& on_board(rank_of(s) + d, file_of(s))
    &&& is_empty(b, square_at(rank_of(s) + d, file_of(s)))
    &&& (m.end_square == square_at(rank_of(s) + d, file_of(s)) || (rank_of(s) == pawn_start_rank(c)
        && m.end_square == square_at(rank_of(s) + 2 * d, file_of(s)) && is_empty(
        b,
        m.end_square as int,
    )))
}

/// A pawn's diagonal capture towards file offset `df`: of an enemy piece on the square, or
/// en passant when the square is empty and is the en passant target.
pub open spec fn pawn_capture(b: BoardModel, m: Move, c: Color, df: int) -> bool {
    let s = m.start_square as int;
    let r = rank_of(s) + pawn_dir(c);
    let f = file_of(s) + df;
    &&& !m.castles
    &&& promotes_ok(m, c)
    &&& on_board(r, f)
    &&& m.end_square == square_at(r, f)
    &&& if is_empty(b, square_at(r, f)) {
        m.is_en_passant && b.en_passant_square == Some(square_at(r, f) as u8)
    } else {
        !m.is_en_passant && is_enemy(b, square_at(r, f))
    }
}

pub open spec fn pawn_move(b: BoardModel, m: Move, c: Color) -> bool {
    pawn_push(b, m, c) || pawn_capture(b, m, c, 1) || pawn_capture(b, m, c, -1)
}

/// The moves of a piece by its kind, castling aside.
pub open spec fn piece_move(b: BoardModel, m: Move, p: Piece) -> bool {
    match p.kind {
        PieceKind::Pawn => pawn_move(b, m, p.color),
        PieceKind::Knight => knight_move(b, m),
        PieceKind::Bishop => bishop_move(b, m),
        PieceKind::Rook => rook_move(b, m),
        PieceKind::Queen => rook_move(b, m) || bishop_move(b, m),
        PieceKind::King => king_step(b, m),
    }
}

/// A move of a piece of the side to move that obeys the piece's geometry and the occupancy
/// of the board, castling aside; it may leave the mover's king attacked.
pub open spec fn basic_move(b: BoardModel, m: Move) -> bool {
    &&& m.start_square < 64
    &&& b.pieces[m.start_square as int] matches Some(p)
    &&& p.color == b.side_to_play
    &&& piece_move(b, m, p)
}

/// Appends the leap by one offset, if it lands on the board and not on a piece of the side
/// to move.
fn offset_move(board: &BoardState, square: usize, df: i32, dr: i32, moves: &mut Vec<Move>)
    requires
        old(moves)@.no_duplicates(),
        model(*board).wf(),
        square < 64,
        -2 <= df <= 2,
        -2 <= dr <= 2,
    ensures
        forall|m: Move| #[trigger]
            final(moves)@.contains(m) <==> old(moves)@.contains(m) || (m.start_square == square
                && jump(model(*board), m, df as int, dr as int)),
        final(moves)@.no_duplicates(),
        appends_from(old(moves)@, final(moves)@, square as int),
{
    let tr = rank(square) as i32 + dr;
    let tf = file(square) as i32 + df;
    if !is_on_board(tr, tf) {
        return;
    }
    let target = (tr * 8 + tf) as usize;
    let friendly = match &board.pieces[target] {
        Some(p) => same_color(&p.color, &board.side_to_play),
        None => false,
    };
    if !friendly {
        push_move(moves, Move::standard(square, target));
    }
}

fn generate_knight_moves(board: &BoardState, square: usize, moves: &mut Vec<Move>)
    requires
        old(moves)@.no_duplicates(),
        model(*board).wf(),
        square < 64,
    ensures
        forall|m: Move| #[trigger]
            final(moves)@.contains(m) <==> old(moves)@.contains(m) || (m.start_square == square
                && knight_move(model(*board), m)),
        final(moves)@.no_duplicates(),
        appends_from(old(moves)@, final(moves)@, square as int),
{
    offset_move(board, square, 2, 1, moves);
    offset_move(board, square, 2, -1, moves);
    offset_move(board, square, -2, 1, moves);
    offset_move(board, square, -2, -1, moves);
    offset_move(board, square, 1, 2, moves);
    offset_move(board, square, 1, -2, moves);
    offset_move(board, square, -1, 2, moves);
    offset_move(board, square, -1, -2, moves);
}

fn generate_bishop_moves(board: &BoardState, square: usize, moves: &mut Vec<Move>)
    requires
        old(moves)@.no_duplicates(),
        model(*board).wf(),
        square < 64,
    ensures
        forall|m: Move| #[trigger]
            final(moves)@.contains(m) <==> old(moves)@.contains(m) || (m.start_square == square
                && bishop_move(model(*board), m)),
        final(moves)@.no_duplicates(),
        appends_from(old(moves)@, final(moves)@, square as int),
{
    straight_line_moves(board, square, 1, 1, 8, moves);
    straight_line_moves(board, square, 1, -1, 8, moves);
    straight_line_moves(board, square, -1, 1, 8, moves);
    straight_line_moves(board, square, -1, -1, 8, moves);
}

fn generate_rook_moves(board: &BoardState, square: usize, moves: &mut Vec<Move>)
    requires
        old(moves)@.no_duplicates(),
        model(*board).wf(),
        square < 64,
    ensures
        forall|m: Move| #[trigger]
            final(moves)@.contains(m) <==> old(moves)@.contains(m) || (m.start_square == square
                && rook_move(model(*board), m)),
        final(moves)@.no_duplicates(),
        appends_from(old(moves)@, final(moves)@, square as int),
{
    straight_line_moves(board, square, 1, 0, 8, moves);
    straight_line_moves(board, square, 0, -1, 8, moves);
    straight_line_moves(board, square, -1, 0, 8, moves);
    straight_line_moves(board, square, 0, 1, 8, moves);
}

fn generate_queen_moves(board: &BoardState, square: usize, moves: &mut Vec<Move>)
    requires
        old(moves)@.no_duplicates(),
        model(*board).wf(),
        square < 64,
    ensures
        forall|m: Move| #[trigger]
            final(moves)@.contains(m) <==> old(moves)@.contains(m) || (m.start_square == square
                && (rook_move(model(*board), m) || bishop_move(model(*board), m))),
        final(moves)@.no_duplicates(),
        appends_from(old(moves)@, final(moves)@, square as int),
{
    generate_rook_moves(board, square, moves);
    generate_bishop_moves(board, square, moves);
}

fn generate_king_moves(board: &BoardState, square: usize, moves: &mut Vec<Move>)
    requires
        old(moves)@.no_duplicates(),
        model(*board).wf(),
        square < 64,
    ensures
        forall|m: Move| #[trigger]
            final(moves)@.contains(m) <==> old(moves)@.contains(m) || (m.start_square == square
                && king_step(model(*board), m)),
        final(moves)@.no_duplicates(),
        appends_from(old(moves)@, final(moves)@, square as int),
{
    straight_line_moves(board, square, 1, 0, 1, moves);
    straight_line_moves(board, square, 0, -1, 1, moves);
    straight_line_moves(board, square, -1, 0, 1, moves);
    straight_line_moves(board, square, 0, 1, 1, moves);
    straight_line_moves(board, square, 1, 1, 1, moves);
    straight_line_moves(board, square, 1, -1, 1, moves);
    straight_line_moves(board, square, -1, 1, 1, moves);
    straight_line_moves(board, square, -1, -1, 1, moves);
}

/// A pawn's move from `square` to `target`: it names one of the four promotion pieces where
/// `promote` holds, else none.
pub open spec fn pawn_move_to(
    m: Move,
    square: int,
    target: int,
    promote: bool,
    is_en_passant: bool,
) -> bool {
    &&& m.start_square == square
    &&& m.end_square == target
    &&& m.is_en_passant == is_en_passant
    &&& !m.castles
    &&& if promote {
        m.promotion matches Some(k) && is_promotion_piece(k)
    } else {
        m.promotion is None
    }
}

/// `new` keeps `old` as its beginning and appends only moves that start from `square`.
pub open spec fn appends_from(old: Seq<Move>, new: Seq<Move>, square: int) -> bool {
    &&& old.len() <= new.len()
    &&& forall|k: int| 0 <= k < old.len() ==> #[trigger] new[k] == old[k]
    &&& forall|k: int| old.len() <= k < new.len() ==> #[trigger] new[k].start_square == square
}

/// The moves come in ascending order of their start squares.
pub open spec fn ordered_by_start(s: Seq<Move>) -> bool {
    forall|i: int, j: int| 0 <= i < j < s.len() ==> s[i].start_square <= s[j].start_square
}

pub fn same_kind(a: &PieceKind, b: &PieceKind) -> (r: bool)
    ensures
        r == (*a == *b),
{
    match (a, b) {
        (PieceKind::Pawn, PieceKind::Pawn) => true,
        (PieceKind::Knight, PieceKind::Knight) => true,
        (PieceKind::Bishop, PieceKind::Bishop) => true,
        (PieceKind::Rook, PieceKind::Rook) => true,
        (PieceKind::Queen, PieceKind::Queen) => true,
        (PieceKind::King, PieceKind::King) => true,
        _ => false,
    }
}

pub fn same_move(a: &Move, b: &Move) -> (r: bool)
    ensures
        r == (*a == *b),
{
    let same_promotion = match (&a.promotion, &b.promotion) {
        (Some(x), Some(y)) => same_kind(x, y),
        (None, None) => true,
        _ => false,
    };
    a.start_square == b.start_square && a.end_square == b.end_square && same_promotion
        && a.is_en_passant == b.is_en_passant && a.castles == b.castles
}

fn holds_move(moves: &Vec<Move>, mv: &Move) -> (r: bool)
    ensures
        r == moves@.contains(*mv),
{
    let mut i: usize = 0;
    while i < moves.len()
        invariant
            i <= moves@.len(),
            forall|j: int| 0 <= j < i ==> moves@[j] != *mv,
        decreases moves@.len() - i,
    {
        if same_move(&moves[i], mv) {
            assert(moves@[i as int] == *mv);
            return true;
        }
        i = i + 1;
    }
    false
}

/// Appends a move unless the list already holds it.
fn push_move(moves: &mut Vec<Move>, mv: Move)
    requires
        old(moves)@.no_duplicates(),
    ensures
        forall|m: Move| #[trigger]
            final(moves)@.contains(m) <==> old(moves)@.contains(m) || m == mv,
        final(moves)@.no_duplicates(),
        appends_from(old(moves)@, final(moves)@, mv.start_square as int),
{
    proof {
        lemma_push_contains(moves@, mv);
    }
    if !holds_move(moves, &mv) {
        moves.push(mv);
    }
}

/// Appends a pawn's moves to `target`: one for each promotion piece where `promote` holds,
/// else one without promotion.
fn push_pawn_move(
    square: usize,
    target: usize,
    promote: bool,
    is_en_passant: bool,
    moves: &mut Vec<Move>,
)
    requires
        old(moves)@.no_duplicates(),
    ensures
        forall|m: Move| #[trigger]
            final(moves)@.contains(m) <==> old(moves)@.contains(m) || pawn_move_to(
                m,
                square as int,
                target as int,
                promote,
                is_en_passant,
            ),
        final(moves)@.no_duplicates(),
        appends_from(old(moves)@, final(moves)@, square as int),
{
    if promote {
        let queen = Move {
            start_square: square,
            end_square: target,
            promotion: Some(PieceKind::Queen),
            is_en_passant,
            castles: false,
        };
        let knight = Move { promotion: Some(PieceKind::Knight), ..queen };
        let bishop = Move { promotion: Some(PieceKind::Bishop), ..queen };
        let rook = Move { promotion: Some(PieceKind::Rook), ..queen };
        push_move(moves, queen);
        push_move(moves, knight);
        push_move(moves, bishop);
        push_move(moves, rook);
        assert forall|m: Move|
            pawn_move_to(
                m,
                square as int,
                target as int,
                promote,
                is_en_passant,
            ) implies #[trigger] moves@.contains(m) by {
            let k = m.promotion->0;
            if k is Queen {
                assert(m == queen);
            } else if k is Knight {
                assert(m == knight);
            } else if k is Bishop {
                assert(m == bishop);
            } else {
                assert(m == rook);
            }
        }
    } else {
        push_move(
            moves,
            Move {
                start_square: square,
                end_square: target,
                promotion: None,
                is_en_passant,
                castles: false,
            },
        );
    }
}

/// Appends a pawn's diagonal capture towards file offset `df`, if there is one.
fn generate_pawn_capture(
    board: &BoardState,
    square: usize,
    color: &Color,
    df: i32,
    moves: &mut Vec<Move>,
)
    requires
        old(moves)@.no_duplicates(),
        model(*board).wf(),
        square < 64,
        df == 1 || df == -1,
    ensures
        forall|m: Move| #[trigger]
            final(moves)@.contains(m) <==> old(moves)@.contains(m) || (m.start_square == square
                && pawn_capture(model(*board), m, *color, df as int)),
        final(moves)@.no_duplicates(),
        appends_from(old(moves)@, final(moves)@, square as int),
{
    let white = matches!(color, Color::White);
    let dir: i32 = if white { 1 } else { -1 };
    let promo: usize = if white { 7 } else { 0 };
    let tr = rank(square) as i32 + dir;
    let tf = file(square) as i32 + df;
    if !is_on_board(tr, tf) {
        return;
    }
    let target = (tr * 8 + tf) as usize;
    let occupant = match &board.pieces[target] {
        Some(p) => Some(!same_color(&p.color, &board.side_to_play)),
        None => None,
    };
    match occupant {
        Some(enemy) => {
            if enemy {
                push_pawn_move(square, target, rank(target) == promo, false, moves);
            }
        },
        None => {
            let is_target = match board.en_passant_square {
                Some(e) => e as usize == target,
                None => false,
            };
            if is_target {
                push_pawn_move(square, target, rank(target) == promo, true, moves);
            }
        },
    }
}

fn generate_pawn_moves(board: &BoardState, square: usize, color: &Color, moves: &mut Vec<Move>)
    requires
        old(moves)@.no_duplicates(),
        model(*board).wf(),
        square < 64,
    ensures
        forall|m: Move| #[trigger]
            final(moves)@.contains(m) <==> old(moves)@.contains(m) || (m.start_square == square
                && pawn_move(model(*board), m, *color)),
        final(moves)@.no_duplicates(),
        appends_from(old(moves)@, final(moves)@, square as int),
{
    let ghost b = model(*board);
    let ghost m0 = moves@;
    let white = matches!(color, Color::White);
    let dir: i32 = if white { 1 } else { -1 };
    let promo: usize = if white { 7 } else { 0 };
    let start_rank: usize = if white { 1 } else { 6 };
    let r = rank(square) as i32;
    let f = file(square) as i32;
    if is_on_board(r + dir, f) {
        let t1 = ((r + dir) * 8 + f) as usize;
        if board.pieces[t1].is_none() {
            push_pawn_move(square, t1, rank(t1) == promo, false, moves);
            if rank(square) == start_rank {
                let t2 = ((r + 2 * dir) * 8 + f) as usize;
                if board.pieces[t2].is_none() {
                    push_pawn_move(square, t2, rank(t2) == promo, false, moves);
                }
            }
        }
    }
    let ghost m1 = moves@;
    assert(forall|m: Move| #[trigger] m1.contains(m) <==> m0.contains(m) || (
        m.start_square == square && pawn_push(b, m, *color)));
    generate_pawn_capture(board, square, color, 1, moves);
    generate_pawn_capture(board, square, color, -1, moves);
}

fn generate_piece_moves(board: &BoardState, square: usize, piece: &Piece, moves: &mut Vec<Move>)
    requires
        old(moves)@.no_duplicates(),
        model(*board).wf(),
        square < 64,
    ensures
        forall|m: Move| #[trigger]
            final(moves)@.contains(m) <==> old(moves)@.contains(m) || (m.start_square == square
                && piece_move(model(*board), m, *piece)),
        final(moves)@.no_duplicates(),
        appends_from(old(moves)@, final(moves)@, square as int),
{
    match piece.kind {
        PieceKind::Pawn => generate_pawn_moves(board, square, &piece.color, moves),
        PieceKind::Knight => generate_knight_moves(board, square, moves),
        PieceKind::Bishop => generate_bishop_moves(board, square, moves),
        PieceKind::Rook => generate_rook_moves(board, square, moves),
        PieceKind::Queen => generate_queen_moves(board, square, moves),
        PieceKind::King => generate_king_moves(board, square, moves),
    }
}

/// Every move of the side to move that obeys piece geometry and occupancy, castling aside,
/// each once, by ascending start square.
pub fn generate_basic_moves(board: &BoardState) -> (r: Vec<Move>)
    requires
        model(*board).wf(),
    ensures
        forall|m: Move| #[trigger] r@.contains(m) <==> basic_move(model(*board), m),
        r@.no_duplicates(),
        ordered_by_start(r@),
{
    let ghost b = model(*board);
    let mut moves: Vec<Move> = Vec::new();
    let mut i: usize = 0;
    while i < 64
        invariant
            b == model(*board),
            b.wf(),
            i <= 64,
            forall|m: Move| #[trigger]
                moves@.contains(m) <==> basic_move(b, m) && m.start_square < i,
            moves@.no_duplicates(),
            ordered_by_start(moves@),
            forall|k: int| 0 <= k < moves@.len() ==> #[trigger] moves@[k].start_square < i,
        decreases 64 - i,
    {
        let ghost before = moves@;
        match &board.pieces[i] {
            Some(p) => {
                if same_color(&p.color, &board.side_to_play) {
                    generate_piece_moves(board, i, p, &mut moves);
                }
            },
            None => {},
        }
        proof {
            lemma_append_keeps_order(before, moves@, i as int);
        }
        i = i + 1;
    }
    moves
}

/// Appending moves from `square` after moves from lower squares keeps the order.
proof fn lemma_append_keeps_order(before: Seq<Move>, after: Seq<Move>, square: int)
    requires
        ordered_by_start(before),
        forall|k: int| 0 <= k < before.len() ==> #[trigger] before[k].start_square <= square,
        before == after || appends_from(before, after, square),
    ensures
        ordered_by_start(after),
        forall|k: int| 0 <= k < after.len() ==> #[trigger] after[k].start_square <= square,
{
    if before != after {
        assert forall|i: int, j: int| 0 <= i < j < after.len() implies after[i].start_square
            <= after[j].start_square by {
            if j < before.len() {
                assert(after[i] == before[i] && after[j] == before[j]);
            } else if i < before.len() {
                assert(after[i] == before[i]);
            }
        }
        assert forall|k: int| 0 <= k < after.len() implies #[trigger] after[k].start_square
            <= square by {
            if k < before.len() {
                assert(after[k] == before[k]);
            }
        }
    }
}

pub fn same_piece(a: &Piece, b: &Piece) -> (r: bool)
    ensures
        r == (*a == *b),
{
    same_kind(&a.kind, &b.kind) && same_color(&a.color, &b.color)
}

/// The first square, from index `i` on, that holds the piece.
pub open spec fn find_from(b: BoardModel, p: Piece, i: int) -> Option<int>
    decreases 64 - i,
{
    if i < 0 || i >= 64 {
        None
    } else if b.pieces[i] == Some(p) {
        Some(i)
    } else {
        find_from(b, p, i + 1)
    }
}

/// The first square that holds the piece, if any.
pub fn find_piece(board: &BoardState, piece: &Piece) -> (r: Option<usize>)
    requires
        model(*board).wf(),
    ensures
        r matches Some(i) ==> find_from(model(*board), *piece, 0) == Some(i as int),
        r is None ==> find_from(model(*board), *piece, 0) is None,
{
    let ghost b = model(*board);
    let mut i: usize = 0;
    while i < 64
        invariant
            b == model(*board),
            b.wf(),
            i <= 64,
            find_from(b, *piece, 0) == find_from(b, *piece, i as int),
        decreases 64 - i,
    {
        let here = match &board.pieces[i] {
            Some(p) => same_piece(p, piece),
            None => false,
        };
        if here {
            return Some(i);
        }
        i = i + 1;
    }
    None
}

/// Whether the side to move could capture the king of the side that is not to move; a
/// position without that king is not in check.
pub open spec fn in_check(b: BoardModel) -> bool {
    match find_from(b, Piece { kind: PieceKind::King, color: opponent(b.side_to_play) }, 0) {
        Some(k) => exists|m: Move| #[trigger] basic_move(b, m) && m.end_square == k,
        None => false,
    }
}

/// Checks whether the side to move can capture the opponent's king.
pub fn player_in_check(board: &BoardState) -> (r: bool)
    requires
        model(*board).wf(),
    ensures
        r == in_check(model(*board)),
{
    let ghost b = model(*board);
    let king = Piece { kind: PieceKind::King, color: inverse_color(&board.side_to_play) };
    let king_square = match find_piece(board, &king) {
        Some(k) => k,
        None => return false,
    };
    let moves = generate_basic_moves(board);
    let mut i: usize = 0;
    while i < moves.len()
        invariant
            i <= moves@.len(),
            forall|j: int| 0 <= j < i ==> moves@[j].end_square != king_square,
            forall|m: Move| #[trigger] moves@.contains(m) <==> basic_move(b, m),
            b == model(*board),
            king == (Piece { kind: PieceKind::King, color: opponent(b.side_to_play) }),
            find_from(b, king, 0) == Some(king_square as int),
        decreases moves@.len() - i,
    {
        if moves[i].end_square == king_square {
            assert(moves@.contains(moves@[i as int]));
            assert(basic_move(b, moves@[i as int]));
            assert(king == Piece { kind: PieceKind::King, color: opponent(b.side_to_play) });
            return true;
        }
        i = i + 1;
    }
    proof {
        assert forall|m: Move| #[trigger] basic_move(b, m) implies m.end_square != king_square by {
            assert(moves@.contains(m));
        }
    }
    false
}

/// A well-formed move keeps a board well formed.
pub proof fn lemma_executed_wf(b: BoardModel, m: Move)
    requires
        b.wf(),
        move_wf(m),
    ensures
        executed(b, m).wf(),
{
}

/// Whether playing the move leaves the mover's own king attacked.
pub fn puts_self_in_check(board: &BoardState, mov: &Move) -> (r: bool)
    requires
        model(*board).wf(),
        move_wf(*mov),
    ensures
        r == in_check(executed(model(*board), *mov)),
{
    let mut simulation_board = duplicate(board);
    mov.execute(&mut simulation_board);
    proof {
        lemma_executed_wf(model(*board), *mov);
    }
    player_in_check(&simulation_board)
}

/// Castling in one direction (kingside towards the h-file, queenside towards the a-file):
/// the right is still held, the rook's corner lies on the king's rank, the king is not in
/// check, the square next to it is empty and not attacked, and the king lands two files
/// away.
pub open spec fn castle_dir(b: BoardModel, m: Move, kingside: bool) -> bool {
    let s = m.start_square as int;
    let d: int = if kingside {
        1
    } else {
        -1
    };
    &&& m.castles
    &&& m.promotion is None
    &&& !m.is_en_passant
    &&& castling_right(b, b.side_to_play is White, kingside)
    &&& if kingside {
        file_of(s) + 3 <= 7
    } else {
        file_of(s) >= 4
    }
    &&& m.end_square == s + 2 * d
    &&& !in_check(executed(b, standard_move(s, s)))
    &&& is_empty(b, s + d)
    &&& !in_check(executed(b, standard_move(s, s + d)))
}

/// A castling move of the king of the side to move.
pub open spec fn castle_move(b: BoardModel, m: Move) -> bool {
    &&& m.start_square < 64
    &&& b.pieces[m.start_square as int] == Some(
        Piece { kind: PieceKind::King, color: b.side_to_play },
    )
    &&& (castle_dir(b, m, true) || castle_dir(b, m, false))
}

/// A pseudo-legal move: it obeys the rules of movement but may leave the mover's king
/// attacked. Castling counts only where asked for.
pub open spec fn pseudo_move(b: BoardModel, m: Move, castling: bool) -> bool {
    basic_move(b, m) || (castling && castle_move(b, m))
}

/// A legal move: pseudo-legal, castling included, and the mover's king is not attacked
/// after it.
pub open spec fn legal_move(b: BoardModel, m: Move) -> bool {
    pseudo_move(b, m, true) && !in_check(executed(b, m))
}

/// A pseudo-legal move is well formed: its squares are on the board, and a castling move
/// leaves room for its rook.
pub proof fn lemma_pseudo_wf(b: BoardModel, m: Move, castling: bool)
    requires
        b.wf(),
        pseudo_move(b, m, castling),
    ensures
        move_wf(m),
{
}

/// Appends the castling move of the king on `square` in one direction, if it is allowed.
fn generate_directed_castle(
    board: &BoardState,
    square: usize,
    kingside: bool,
    moves: &mut Vec<Move>,
)
    requires
        old(moves)@.no_duplicates(),
        model(*board).wf(),
        square < 64,
    ensures
        forall|m: Move| #[trigger]
            final(moves)@.contains(m) <==> old(moves)@.contains(m) || (m.start_square == square
                && castle_dir(model(*board), m, kingside)),
        final(moves)@.no_duplicates(),
        appends_from(old(moves)@, final(moves)@, square as int),
{
    let white = matches!(board.side_to_play, Color::White);
    let right = if white {
        if kingside { board.white_can_oo } else { board.white_can_ooo }
    } else {
        if kingside { board.black_can_oo } else { board.black_can_ooo }
    };
    if !right {
        return;
    }
    let f = file(square);
    if (kingside && f + 3 > 7) || (!kingside && f < 4) {
        return;
    }
    // castling out of check is not allowed
    if puts_self_in_check(board, &Move::standard(square, square)) {
        return;
    }
    // the king may not pass a piece, nor a square where it would be in check
    let next = if kingside { square + 1 } else { square - 1 };
    if board.pieces[next].is_some() || puts_self_in_check(board, &Move::standard(square, next)) {
        return;
    }
    let end_square = if kingside { square + 2 } else { square - 2 };
    push_move(
        moves,
        Move {
            start_square: square,
            end_square,
            promotion: None,
            castles: true,
            is_en_passant: false,
        },
    );
}

/// Every pseudo-legal move of the side to move, each once, by ascending start square; a
/// king's castling moves, where `castling` holds, follow its steps.
pub fn generate_moves(board: &BoardState, castling: bool) -> (r: Vec<Move>)
    requires
        model(*board).wf(),
    ensures
        forall|m: Move| #[trigger] r@.contains(m) <==> pseudo_move(model(*board), m, castling),
        r@.no_duplicates(),
        ordered_by_start(r@),
{
    let ghost b = model(*board);
    let mut moves: Vec<Move> = Vec::new();
    let mut i: usize = 0;
    while i < 64
        invariant
            b == model(*board),
            b.wf(),
            i <= 64,
            forall|m: Move| #[trigger]
                moves@.contains(m) <==> pseudo_move(b, m, castling) && m.start_square < i,
            moves@.no_duplicates(),
            ordered_by_start(moves@),
            forall|k: int| 0 <= k < moves@.len() ==> #[trigger] moves@[k].start_square < i,
        decreases 64 - i,
    {
        let ghost before = moves@;
        match &board.pieces[i] {
            Some(p) => {
                if same_color(&p.color, &board.side_to_play) {
                    generate_piece_moves(board, i, p, &mut moves);
                    if castling && matches!(p.kind, PieceKind::King) {
                        generate_directed_castle(board, i, true, &mut moves);
                        generate_directed_castle(board, i, false, &mut moves);
                    }
                }
            },
            None => {},
        }
        proof {
            lemma_append_keeps_order(before, moves@, i as int);
        }
        i = i + 1;
    }
    moves
}

/// Every legal move of the side to move, each once, by ascending start square: the
/// pseudo-legal moves, castling included, in the order of their generation, without those
/// that leave the mover's king attacked.
pub fn legal_moves(board: &BoardState) -> (r: Vec<Move>)
    requires
        model(*board).wf(),
    ensures
        forall|m: Move| #[trigger] r@.contains(m) <==> legal_move(model(*board), m),
        r@.no_duplicates(),
        ordered_by_start(r@),
{
    let ghost b = model(*board);
    let moves = generate_moves(board, true);
    let mut legal: Vec<Move> = Vec::new();
    let mut i: usize = 0;
    while i < moves.len()
        invariant
            b == model(*board),
            b.wf(),
            i <= moves@.len(),
            forall|m: Move| #[trigger] moves@.contains(m) <==> pseudo_move(b, m, true),
            ordered_by_start(moves@),
            legal@.no_duplicates(),
            ordered_by_start(legal@),
            forall|k: int| 0 <= k < legal@.len() ==> #[trigger] legal@[k].start_square
                <= if i < moves@.len() { moves@[i as int].start_square } else { 64 },
            forall|m: Move| #[trigger]
                legal@.contains(m) <==> (exists|j: int| 0 <= j < i && moves@[j] == m) && !in_check(
                    executed(b, m),
                ),
        decreases moves@.len() - i,
    {
        let mv = moves[i].duplicate();
        assert(moves@.contains(mv));
        proof {
            lemma_pseudo_wf(b, mv, true);
        }
        let ghost before = legal@;
        if !puts_self_in_check(board, &mv) {
            push_move(&mut legal, mv);
        }
        proof {
            lemma_append_keeps_order(before, legal@, mv.start_square as int);
        }
        assert forall|m: Move| #[trigger]
            legal@.contains(m) <==> (exists|j: int| 0 <= j < i + 1 && moves@[j] == m) && !in_check(
                executed(b, m),
            ) by {
            if exists|j: int| 0 <= j < i + 1 && moves@[j] == m {
                let j = choose|j: int| 0 <= j < i + 1 && moves@[j] == m;
            }
        }
        i = i + 1;
    }
    proof {
        assert forall|m: Move| #[trigger] legal@.contains(m) <==> legal_move(b, m) by {
            if moves@.contains(m) {
                let j = choose|j: int| 0 <= j < moves@.len() && moves@[j] == m;
            }
        }
    }
    legal
}

/// A legal move never leaves the mover's own king attacked.
pub proof fn lemma_legal_move_keeps_king_safe(b: BoardModel, m: Move)
    requires
        legal_move(b, m),
    ensures
        !in_check(executed(b, m)),
{
}

} // verus!
