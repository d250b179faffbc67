use vstd::prelude::*;
use fen::{BoardState, Color, Piece, PieceKind};

verus! {

// The fen crate's position types have public fields and plain variants only, so they are
// declared with their contents visible: the library reads and builds them directly.
/// Relies on fen::Color: the two sides, White and Black.
#[verifier::external_type_specification]
pub struct ExFenColor(fen::Color);

/// Relies on fen::PieceKind: the six kinds of chess pieces.
#[verifier::external_type_specification]
pub struct ExFenPieceKind(fen::PieceKind);

/// Relies on fen::Piece: a kind and a color.
#[verifier::external_type_specification]
pub struct ExFenPiece(fen::Piece);

/// Relies on fen::BoardState: the squares, the side to move, the castling rights, the en
/// passant target and the two counters of a position.
#[verifier::external_type_specification]
pub struct ExFenBoardState(fen::BoardState);

/// The position that a text in Forsyth-Edwards notation describes, as the fen crate reads it.
pub uninterp spec fn fen_parse(s: Seq<char>) -> Option<BoardModel>;

/// The Forsyth-Edwards text that the fen crate writes for a position.
pub uninterp spec fn fen_text(b: BoardModel) -> Seq<char>;

/// Where the repetition key of a position text ends: before its second space, or at its end.
pub open spec fn key_end(s: Seq<char>, i: int, seen_space: bool) -> int
    decreases s.len() - i,
{
    if i < 0 || i >= s.len() {
        s.len() as int
    } else if s[i] == ' ' {
        if seen_space {
            i
        } else {
            key_end(s, i + 1, true)
        }
    } else {
        key_end(s, i + 1, seen_space)
    }
}

/// The repetition key of a position text: its first two fields, the placement and the side
/// to move, as the fen crate writes them, separated by one space.
pub open spec fn position_key(s: Seq<char>) -> Seq<char> {
    s.subrange(0, key_end(s, 0, false))
}

/// The part of a position that decides repetition: its pieces and the side to move, with
/// the castling rights, the en passant target and the counters set aside.
pub open spec fn key_model(b: BoardModel) -> BoardModel {
    BoardModel {
        pieces: b.pieces,
        side_to_play: b.side_to_play,
        white_can_oo: false,
        white_can_ooo: false,
        black_can_oo: false,
        black_can_ooo: false,
        en_passant_square: None,
        halfmove_clock: 0,
        fullmove_number: 1,
    }
}

/// The repetition key of a position: the first two fields of its text, which stand for
/// the pieces and the side to move alone.
pub open spec fn repetition_key(b: BoardModel) -> Seq<char> {
    position_key(fen_text(key_model(b)))
}

/// Relies on fen::BoardState::from_fen: parses a position; a parsed placement holds 64
/// squares and a parsed en passant square is a square index. The parser indexes past its
/// squares where a rank places a piece past the eighth file, and past the characters of an
/// en passant field of two bytes that is one character: ASCII text without such an overrun
/// is safe.
#[verifier::external_body]
fn parse_fen(s: &str) -> (r: Option<fen::BoardState>)
    requires
        s.is_ascii(),
        !placement_overruns(s@),
    ensures
        r is Some <==> fen_parse(s@) is Some,
        r matches Some(b) ==> fen_parse(s@) == Some(model(b)),
        r matches Some(b) ==> b.pieces@.len() == 64 && (b.en_passant_square matches Some(e)
            ==> e < 64),
{
    fen::BoardState::from_fen(s).ok()
}

/// Relies on fen::BoardState::to_fen: writes a position as Forsyth-Edwards text. Its first
/// two fields, the placement (digits, piece letters and '/') and the side to move ("w" or
/// "b"), are written from the squares and the side to move alone, and joined to the other
/// four fields by single spaces.
#[verifier::external_body]
fn write_fen(b: &fen::BoardState) -> (r: String)
    requires
        b.pieces@.len() >= 64,
        b.en_passant_square matches Some(e) ==> e < 64,
    ensures
        r@ == fen_text(model(*b)),
        position_key(r@) == position_key(fen_text(key_model(model(*b)))),
{
    b.to_fen()
}

/// Whether the placement field of a position text (the text before its first space), read
/// from character `i` with `files` files of the current rank already filled, places a piece
/// past the eighth file of some rank. The fen crate's parser writes such a piece at an
/// index that it does not bound, past the end of its squares in the eighth rank or far
/// enough along a lower one.
pub open spec fn overruns_from(s: Seq<char>, i: int, files: int) -> bool
    decreases s.len() - i,
{
    if i < 0 || i >= s.len() || s[i] == ' ' {
        false
    } else if s[i] == '/' {
        overruns_from(s, i + 1, 0)
    } else if '0' <= s[i] <= '9' {
        overruns_from(s, i + 1, files + (s[i] as int - '0' as int))
    } else if files >= 8 {
        true
    } else {
        overruns_from(s, i + 1, files + 1)
    }
}

pub open spec fn placement_overruns(s: Seq<char>) -> bool {
    overruns_from(s, 0, 0)
}

proof fn lemma_overruns_full(s: Seq<char>, i: int, f1: int, f2: int)
    requires
        f1 >= 8,
        f2 >= 8,
    ensures
        overruns_from(s, i, f1) == overruns_from(s, i, f2),
    decreases s.len() - i,
{
    if i < 0 || i >= s.len() || s[i] == ' ' || s[i] == '/' {
    } else if '0' <= s[i] <= '9' {
        let d = s[i] as int - '0' as int;
        lemma_overruns_full(s, i + 1, f1 + d, f2 + d);
    } else {
    }
}

/// Whether the fen crate's parser can be handed this text: no rank of its placement places
/// a piece past the eighth file.
pub fn placement_fits(s: &str) -> (r: bool)
    ensures
        r == !placement_overruns(s@),
{
    let n = s.unicode_len();
    let mut i: usize = 0;
    let mut files: u64 = 0;
    while i < n
        invariant
            n == s@.len(),
            i <= n,
            files <= 8,
            overruns_from(s@, 0, 0) == overruns_from(s@, i as int, files as int),
        decreases n - i,
    {
        let c = s.get_char(i);
        if c == ' ' {
            return true;
        }
        if c == '/' {
            files = 0;
        } else if '0' <= c && c <= '9' {
            let d = (c as u64) - ('0' as u64);
            proof {
                if files + d >= 8 {
                    lemma_overruns_full(s@, i + 1, files + d, 8);
                }
            }
            files = if files + d >= 8 { 8 } else { files + d };
        } else if files >= 8 {
            return false;
        } else {
            files = files + 1;
        }
        i = i + 1;
    }
    true
}

pub open spec fn opponent(c: Color) -> Color {
    match c {
        Color::White => Color::Black,
        Color::Black => Color::White,
    }
}

pub fn inverse_color(c: &Color) -> (r: Color)
    ensures
        r == opponent(*c),
{
    match c {
        Color::White => Color::Black,
        Color::Black => Color::White,
    }
}

pub fn same_color(a: &Color, b: &Color) -> (r: bool)
    ensures
        r == (*a == *b),
{
    match (a, b) {
        (Color::White, Color::White) => true,
        (Color::Black, Color::Black) => true,
        _ => false,
    }
}

pub fn copy_color(c: &Color) -> (r: Color)
    ensures
        r == *c,
{
    match c {
        Color::White => Color::White,
        Color::Black => Color::Black,
    }
}

pub fn copy_kind(k: &PieceKind) -> (r: PieceKind)
    ensures
        r == *k,
{
    match k {
        PieceKind::Pawn => PieceKind::Pawn,
        PieceKind::Knight => PieceKind::Knight,
        PieceKind::Bishop => PieceKind::Bishop,
        PieceKind::Rook => PieceKind::Rook,
        PieceKind::Queen => PieceKind::Queen,
        PieceKind::King => PieceKind::King,
    }
}

pub fn copy_square(p: &Option<Piece>) -> (r: Option<Piece>)
    ensures
        r == *p,
{
    match p {
        Some(p) => Some(Piece { kind: copy_kind(&p.kind), color: copy_color(&p.color) }),
        None => None,
    }
}

/// The mathematical value of a position: 64 squares (0 = a1, 7 = h1, 56 = a8, 63 = h8),
/// the side to move, the four castling rights, the en passant target and the counters.
pub struct BoardModel {
    pub pieces: Seq<Option<Piece>>,
    pub side_to_play: Color,
    pub white_can_oo: bool,
    pub white_can_ooo: bool,
    pub black_can_oo: bool,
    pub black_can_ooo: bool,
    pub en_passant_square: Option<u8>,
    pub halfmove_clock: u64,
    pub fullmove_number: u64,
}

impl BoardModel {
    /// The squares are 64 and the en passant target is one of them.
    pub open spec fn wf(self) -> bool {
        &&& self.pieces.len() == 64
        &&& self.en_passant_square matches Some(e) ==> e < 64
    }
}

pub open spec fn model(b: BoardState) -> BoardModel {
    BoardModel {
        pieces: b.pieces@,
        side_to_play: b.side_to_play,
        white_can_oo: b.white_can_oo,
        white_can_ooo: b.white_can_ooo,
        black_can_oo: b.black_can_oo,
        black_can_ooo: b.black_can_ooo,
        en_passant_square: b.en_passant_square,
        halfmove_clock: b.halfmove_clock,
        fullmove_number: b.fullmove_number,
    }
}

pub open spec fn board_wf(b: BoardState) -> bool {
    model(b).wf()
}

/// An independent copy of a position.
pub fn duplicate(board: &BoardState) -> (r: BoardState)
    ensures
        model(r) == model(*board),
{
    let mut pieces: Vec<Option<Piece>> = Vec::new();
    let n = board.pieces.len();
    let mut i: usize = 0;
    while i < n
        invariant
            n == board.pieces@.len(),
            i <= n,
            pieces@ == board.pieces@.subrange(0, i as int),
        decreases n - i,
    {
        pieces.push(copy_square(&board.pieces[i]));
        i = i + 1;
        assert(pieces@ =~= board.pieces@.subrange(0, i as int));
    }
    assert(board.pieces@.subrange(0, n as int) =~= board.pieces@);
    BoardState {
        pieces,
        side_to_play: copy_color(&board.side_to_play),
        white_can_oo: board.white_can_oo,
        white_can_ooo: board.white_can_ooo,
        black_can_oo: board.black_can_oo,
        black_can_ooo: board.black_can_ooo,
        en_passant_square: board.en_passant_square,
        halfmove_clock: board.halfmove_clock,
        fullmove_number: board.fullmove_number,
    }
}

/// Reads a position in Forsyth-Edwards notation; `None` where the text is malformed or not
/// ASCII.
pub fn board_from_fen(fen: &str) -> (r: Option<BoardState>)
    ensures
        r is Some <==> fen.is_ascii() && !placement_overruns(fen@) && fen_parse(fen@) is Some,
        r matches Some(b) ==> board_wf(b) && model(b) == fen_parse(fen@)->0,
{
    if !fen.is_ascii() || !placement_fits(fen) {
        return None;
    }
    parse_fen(fen)
}

/// The position in Forsyth-Edwards notation.
pub fn board_to_fen(board: &BoardState) -> (r: String)
    requires
        board_wf(*board),
    ensures
        r@ == fen_text(model(*board)),
        position_key(r@) == repetition_key(model(*board)),
{
    write_fen(board)
}

/// Two positions with the same pieces and the same side to move have the same repetition
/// key, whatever their castling rights, en passant targets and counters.
pub proof fn lemma_repetition_key_ignores_bookkeeping(a: BoardModel, b: BoardModel)
    requires
        a.pieces == b.pieces,
        a.side_to_play == b.side_to_play,
    ensures
        repetition_key(a) == repetition_key(b),
{
    assert(key_model(a) == key_model(b));
}

} // verus!
