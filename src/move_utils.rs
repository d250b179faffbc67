use vstd::prelude::*;
use fen::{BoardState, Color, Piece, PieceKind};
use crate::board::{copy_color, copy_kind, copy_square, inverse_color, model, opponent, BoardModel};
use crate::square_utils::{
    is_square_text, push_char, square_from_string, square_of_text, square_text, square_to_string,
};

verus! {

/// One ply: the squares a piece leaves and reaches, the piece a pawn becomes, whether it
/// captures en passant, and whether it is a king's castling move (then the squares are the
/// king's own, so that the direction tells the kingside from the queenside).
#[derive(PartialEq, Clone, Debug)]
pub struct Move {
    pub start_square: usize,
    pub end_square: usize,
    pub promotion: Option<PieceKind>,
    pub is_en_passant: bool,
    pub castles: bool,
}

/// The squares are on the board and a castling move leaves room for its rook's corner.
pub open spec fn move_wf(m: Move) -> bool {
    &&& m.start_square < 64
    &&& m.end_square < 64
    &&& m.castles ==> (m.end_square > m.start_square && m.start_square + 3 < 64) || (
    m.end_square < m.start_square && m.start_square >= 4)
}

pub open spec fn standard_move(start: int, end: int) -> Move {
    Move {
        start_square: start as usize,
        end_square: end as usize,
        promotion: None,
        is_en_passant: false,
        castles: false,
    }
}

/// The square of the pawn that an en passant capture by a piece of color `c` takes: one
/// rank behind the target, seen from the capturing side.
pub open spec fn ep_victim(b: BoardModel, c: Color) -> Option<int> {
    match b.en_passant_square {
        Some(t) => match c {
            Color::White => if t >= 8 {
                Some(t - 8)
            } else {
                None
            },
            Color::Black => if t + 8 < 64 {
                Some(t + 8)
            } else {
                None
            },
        },
        None => None,
    }
}

/// The corner a rook starts from.
pub open spec fn rook_corner(white: bool, kingside: bool) -> int {
    if white {
        if kingside {
            7
        } else {
            0
        }
    } else {
        if kingside {
            63
        } else {
            56
        }
    }
}

pub open spec fn castling_right(b: BoardModel, white: bool, kingside: bool) -> bool {
    if white {
        if kingside {
            b.white_can_oo
        } else {
            b.white_can_ooo
        }
    } else {
        if kingside {
            b.black_can_oo
        } else {
            b.black_can_ooo
        }
    }
}

/// Whether a castling right survives the move of piece `p`: the mover loses both rights
/// when its king moves, one when a rook leaves its corner, and the one of the direction it
/// castles in.
pub open spec fn right_after(
    b: BoardModel,
    m: Move,
    p: Piece,
    white: bool,
    kingside: bool,
) -> bool {
    let mover = (b.side_to_play is White) == white;
    &&& castling_right(b, white, kingside)
    &&& !(mover && p.kind is King)
    &&& !(mover && p.kind is Rook && m.start_square == rook_corner(white, kingside))
    &&& !(mover && m.castles && kingside == (m.end_square > m.start_square))
}

/// The piece that stands on the destination: the mover, or what it is promoted to.
pub open spec fn arriving(m: Move, p: Piece) -> Piece {
    match m.promotion {
        Some(k) => Piece { kind: k, color: p.color },
        None => p,
    }
}

pub open spec fn pieces_after(b: BoardModel, m: Move, p: Piece) -> Seq<Option<Piece>> {
    let s1 = b.pieces.update(m.start_square as int, None).update(
        m.end_square as int,
        Some(arriving(m, p)),
    );
    let s2 = if m.is_en_passant && ep_victim(b, p.color) is Some {
        s1.update(ep_victim(b, p.color)->0, None)
    } else {
        s1
    };
    if m.castles {
        if m.end_square > m.start_square {
            s2.update(m.end_square - 1, s2[m.start_square + 3]).update(m.start_square + 3, None)
        } else {
            s2.update(m.end_square + 1, s2[m.start_square - 4]).update(m.start_square - 4, None)
        }
    } else {
        s2
    }
}

/// Whether the move is a pawn's step of two ranks.
pub open spec fn is_double_step(m: Move, p: Piece) -> bool {
    p.kind is Pawn && (m.end_square == m.start_square + 16 || m.start_square == m.end_square + 16)
}

/// The position after a move; a move from an empty square changes nothing.
pub open spec fn executed(b: BoardModel, m: Move) -> BoardModel {
    match b.pieces[m.start_square as int] {
        None => b,
        Some(p) => BoardModel {
            pieces: pieces_after(b, m, p),
            side_to_play: opponent(b.side_to_play),
            white_can_oo: right_after(b, m, p, true, true),
            white_can_ooo: right_after(b, m, p, true, false),
            black_can_oo: right_after(b, m, p, false, true),
            black_can_ooo: right_after(b, m, p, false, false),
            en_passant_square: if is_double_step(m, p) {
                Some(((m.start_square + m.end_square) / 2) as u8)
            } else {
                None
            },
            halfmove_clock: b.halfmove_clock,
            fullmove_number: b.fullmove_number,
        },
    }
}

/// The letter that names a promotion piece.
pub open spec fn is_promotion_letter(c: char) -> bool {
    c == 'q' || c == 'r' || c == 'n' || c == 'b'
}

pub open spec fn promotion_of_letter(c: char) -> PieceKind {
    if c == 'q' {
        PieceKind::Queen
    } else if c == 'r' {
        PieceKind::Rook
    } else if c == 'n' {
        PieceKind::Knight
    } else {
        PieceKind::Bishop
    }
}

pub open spec fn promotion_text(p: Option<PieceKind>) -> Seq<char> {
    match p {
        Some(PieceKind::Rook) => seq!['r'],
        Some(PieceKind::Knight) => seq!['n'],
        Some(PieceKind::Bishop) => seq!['b'],
        Some(PieceKind::Queen) => seq!['q'],
        _ => Seq::empty(),
    }
}

/// A text of the form `<from><to>[promotion letter]`, such as "e2e4" or "g7g8q".
pub open spec fn is_move_text(s: Seq<char>) -> bool {
    &&& s.len() >= 4
    &&& is_square_text(s.subrange(0, 2))
    &&& is_square_text(s.subrange(2, 4))
    &&& s.len() > 4 ==> is_promotion_letter(s[4])
}

/// The move that a text names on a board: the board tells an en passant capture (the
/// destination is the en passant target) and a castling move (a king that leaves its home
/// square by two files).
pub open spec fn decoded(s: Seq<char>, b: BoardModel) -> Move {
    let start = square_of_text(s.subrange(0, 2));
    let end = square_of_text(s.subrange(2, 4));
    Move {
        start_square: start as usize,
        end_square: end as usize,
        promotion: if s.len() > 4 {
            Some(promotion_of_letter(s[4]))
        } else {
            None
        },
        is_en_passant: b.en_passant_square == Some(end as u8),
        castles: b.pieces[start] matches Some(p) && p.kind is King && start == (if b.side_to_play
            is White {
            4int
        } else {
            60int
        }) && (end == start + 2 || start == end + 2),
    }
}

/// The text of a move: its two squares and, for a promotion, the piece's letter.
pub open spec fn encoded(m: Move) -> Seq<char> {
    square_text(m.start_square as int) + square_text(m.end_square as int) + promotion_text(
        m.promotion,
    )
}

impl Move {
    /// A move without promotion, en passant capture or castling.
    pub fn standard(start_square: usize, end_square: usize) -> (r: Move)
        ensures
            r == standard_move(start_square as int, end_square as int),
    {
        Move { start_square, end_square, promotion: None, is_en_passant: false, castles: false }
    }

    /// An independent copy of the move.
    pub fn duplicate(&self) -> (r: Move)
        ensures
            r == *self,
    {
        Move {
            start_square: self.start_square,
            end_square: self.end_square,
            promotion: match &self.promotion {
                Some(k) => Some(copy_kind(k)),
                None => None,
            },
            is_en_passant: self.is_en_passant,
            castles: self.castles,
        }
    }

    /// Reads a move such as "e2e4" or "g7g8q" in the context of the board it is played on.
    pub fn from_long_algebraic(move_str: String, board: &BoardState) -> (r: Move)
        requires
            is_move_text(move_str@),
            model(*board).wf(),
        ensures
            r == decoded(move_str@, model(*board)),
            move_wf(r),
    {
        let text = move_str.as_str();
        let from = text.substring_char(0, 2);
        let to = text.substring_char(2, 4);
        let start_square = square_from_string(from);
        let end_square = square_from_string(to);
        proof {
            assert(from@.subrange(0, 2) =~= from@);
            assert(to@.subrange(0, 2) =~= to@);
        }
        let is_en_passant = match board.en_passant_square {
            Some(s) => s as usize == end_square,
            None => false,
        };
        let home: usize = match board.side_to_play {
            Color::White => 4,
            Color::Black => 60,
        };
        let is_king = match &board.pieces[start_square] {
            Some(p) => matches!(p.kind, PieceKind::King),
            None => false,
        };
        let castles = is_king && start_square == home && (end_square == start_square + 2
            || start_square == end_square + 2);
        let promotion = if text.unicode_len() > 4 {
            let c = text.get_char(4);
            if c == 'q' {
                Some(PieceKind::Queen)
            } else if c == 'r' {
                Some(PieceKind::Rook)
            } else if c == 'n' {
                Some(PieceKind::Knight)
            } else {
                Some(PieceKind::Bishop)
            }
        } else {
            None
        };
        Move { start_square, end_square, promotion, is_en_passant, castles }
    }

    /// Plays the move on the board: the piece (promoted if asked) goes to the destination,
    /// an en passant capture removes the pawn behind the target, a castling move brings its
    /// rook to the square the king crossed, castling rights lapse as the king or a rook moves,
    /// a pawn's double step sets the en passant target and any other move clears it, and the
    /// other side is to move. A move from an empty square changes nothing.
    pub fn execute(&self, board: &mut BoardState)
        requires
            model(*old(board)).wf(),
            move_wf(*self),
        ensures
            model(*final(board)) == executed(model(*old(board)), *self),
    {
        let start = self.start_square;
        let end = self.end_square;
        let piece = match copy_square(&board.pieces[start]) {
            Some(p) => p,
            None => return,
        };
        let ghost b0 = model(*board);
        let (w_oo, w_ooo, b_oo, b_ooo) = self.rights_after(board, &piece);
        self.place_pieces(board, &piece);
        board.white_can_oo = w_oo;
        board.white_can_ooo = w_ooo;
        board.black_can_oo = b_oo;
        board.black_can_ooo = b_ooo;
        let is_pawn = matches!(piece.kind, PieceKind::Pawn);
        board.en_passant_square = if is_pawn && (end == start + 16 || start == end + 16) {
            Some(((start + end) / 2) as u8)
        } else {
            None
        };
        board.side_to_play = inverse_color(&board.side_to_play);
        assert(model(*board) == executed(b0, *self));
    }

    /// The four castling rights after the move of `piece`.
    fn rights_after(&self, board: &BoardState, piece: &Piece) -> (r: (bool, bool, bool, bool))
        ensures
            r == (
                right_after(model(*board), *self, *piece, true, true),
                right_after(model(*board), *self, *piece, true, false),
                right_after(model(*board), *self, *piece, false, true),
                right_after(model(*board), *self, *piece, false, false),
            ),
    {
        let white = matches!(board.side_to_play, Color::White);
        let king = matches!(piece.kind, PieceKind::King);
        let rook = matches!(piece.kind, PieceKind::Rook);
        let kingside = self.castles && self.end_square > self.start_square;
        let queenside = self.castles && !(self.end_square > self.start_square);
        let start = self.start_square;
        (
            board.white_can_oo && !(white && (king || (rook && start == 7) || kingside)),
            board.white_can_ooo && !(white && (king || (rook && start == 0) || queenside)),
            board.black_can_oo && !(!white && (king || (rook && start == 63) || kingside)),
            board.black_can_ooo && !(!white && (king || (rook && start == 56) || queenside)),
        )
    }

    /// Moves the pieces that the move displaces; nothing else of the board changes.
    fn place_pieces(&self, board: &mut BoardState, piece: &Piece)
        requires
            model(*old(board)).wf(),
            move_wf(*self),
            old(board).pieces@[self.start_square as int] == Some(*piece),
        ensures
            final(board).pieces@ == pieces_after(model(*old(board)), *self, *piece),
            model(*final(board)) == (BoardModel {
                pieces: final(board).pieces@,
                ..model(*old(board))
            }),
    {
        let ghost b0 = model(*board);
        let start = self.start_square;
        let end = self.end_square;
        let end_piece = match &self.promotion {
            Some(k) => Piece { kind: copy_kind(k), color: copy_color(&piece.color) },
            None => Piece { kind: copy_kind(&piece.kind), color: copy_color(&piece.color) },
        };
        board.pieces.set(start, None);
        board.pieces.set(end, Some(end_piece));
        if self.is_en_passant {
            let white = matches!(piece.color, Color::White);
            match board.en_passant_square {
                Some(t) => {
                    if white && t >= 8 {
                        board.pieces.set((t - 8) as usize, None);
                    } else if !white && t < 56 {
                        board.pieces.set((t + 8) as usize, None);
                    }
                },
                None => {},
            }
        }
        let ghost s2 = board.pieces@;
        if self.castles {
            if end > start {
                let rook = copy_square(&board.pieces[start + 3]);
                board.pieces.set(end - 1, rook);
                board.pieces.set(start + 3, None);
            } else {
                let rook = copy_square(&board.pieces[start - 4]);
                board.pieces.set(end + 1, rook);
                board.pieces.set(start - 4, None);
            }
        }
        assert(board.pieces@ =~= pieces_after(b0, *self, *piece));
    }

    /// The move's text: its two squares and, for a promotion, the piece's letter.
    pub fn to_long_algebraic(&self) -> (r: String)
        requires
            self.start_square < 64,
            self.end_square < 64,
        ensures
            r@ == encoded(*self),
    {
        let mut text = square_to_string(self.start_square);
        let to = square_to_string(self.end_square);
        push_char(&mut text, to.as_str().get_char(0));
        push_char(&mut text, to.as_str().get_char(1));
        match &self.promotion {
            Some(PieceKind::Rook) => push_char(&mut text, 'r'),
            Some(PieceKind::Knight) => push_char(&mut text, 'n'),
            Some(PieceKind::Bishop) => push_char(&mut text, 'b'),
            Some(PieceKind::Queen) => push_char(&mut text, 'q'),
            _ => {},
        }
        assert(text@ =~= encoded(*self));
        text
    }
}

proof fn lemma_square_text_round_trip(t: Seq<char>)
    requires
        is_square_text(t),
    ensures
        square_text(square_of_text(t)) == t,
{
    let sq = square_of_text(t);
    let f = t[0] as int - 'a' as int;
    let r = t[1] as int - '1' as int;
    assert(0 <= f < 8 && 0 <= r < 8);
    assert(sq == f + r * 8);
    assert(sq % 8 == f && sq / 8 == r);
    assert(square_text(sq) =~= t);
}

/// Decoding a move's text and encoding the move gives the text back, for texts of four
/// characters or of five with a promotion letter.
pub proof fn lemma_move_text_round_trip(s: Seq<char>, b: BoardModel)
    requires
        is_move_text(s),
        s.len() <= 5,
    ensures
        encoded(decoded(s, b)) == s,
{
    let m = decoded(s, b);
    lemma_square_text_round_trip(s.subrange(0, 2));
    lemma_square_text_round_trip(s.subrange(2, 4));
    assert(m.start_square as int == square_of_text(s.subrange(0, 2)));
    assert(m.end_square as int == square_of_text(s.subrange(2, 4)));
    if s.len() == 5 {
        assert(promotion_text(m.promotion) =~= s.subrange(4, 5));
    } else {
        assert(promotion_text(m.promotion) =~= s.subrange(4, 4));
    }
    assert(encoded(m) =~= s);
}

} // verus!
