// A chess rules engine: move generation with check detection, move execution, and the
// end of a game by checkmate, stalemate, insufficient material and repetition.
use vstd::prelude::*;
use fen::{BoardState, Color, Piece, PieceKind};
use crate::board::{
    board_from_fen, board_to_fen, duplicate, fen_parse, key_end, model, placement_overruns,
    position_key,
    repetition_key,
    BoardModel,
};
use crate::move_utils::{executed, move_wf, Move};
use crate::square_utils::push_char;

pub mod board;
pub mod end_state;
pub mod move_generation;
pub mod move_utils;
pub mod square_utils;

verus! {

/// The repetition key of a position text.
pub fn key_of_position(s: &str) -> (r: String)
    ensures
        r@ == position_key(s@),
{
    let n = s.unicode_len();
    let mut key = String::new();
    let mut i: usize = 0;
    let mut seen_space = false;
    while i < n
        invariant
            n == s@.len(),
            i <= n,
            key@ == s@.subrange(0, i as int),
            key_end(s@, 0, false) == key_end(s@, i as int, seen_space),
        decreases n - i,
    {
        let c = s.get_char(i);
        if c == ' ' {
            if seen_space {
                return key;
            }
            seen_space = true;
        }
        push_char(&mut key, c);
        i = i + 1;
        assert(key@ =~= s@.subrange(0, i as int));
    }
    key
}

/// The number of times each repetition key has occurred, from a list of distinct keys.
pub open spec fn positions_of(h: Seq<(String, usize)>) -> Map<Seq<char>, nat> {
    Map::new(
        |k: Seq<char>| exists|i: int| 0 <= i < h.len() && #[trigger] h[i].0@ == k,
        |k: Seq<char>| h[choose|i: int| 0 <= i < h.len() && #[trigger] h[i].0@ == k].1 as nat,
    )
}

pub open spec fn distinct_keys(h: Seq<(String, usize)>) -> bool {
    forall|i: int, j: int|
        0 <= i < h.len() && 0 <= j < h.len() && i != j ==> #[trigger] h[i].0@ != #[trigger] h[j].0@
}

/// A game: one board, how often each position has occurred, and whether a position has
/// occurred three times.
pub struct GameModel {
    pub board: BoardModel,
    pub positions: Map<Seq<char>, nat>,
    pub draw_by_repetition: bool,
}

/// One more occurrence of a count, which stops at the largest `usize`.
pub open spec fn bumped(c: nat) -> nat {
    if c < usize::MAX {
        c + 1
    } else {
        c
    }
}

/// One more for a counter, which stops at the largest `u64`.
pub open spec fn incremented(c: u64) -> u64 {
    if c < u64::MAX {
        (c + 1) as u64
    } else {
        c
    }
}

/// The position after a move in a game: the move is played and the counters go on as the
/// notation defines them. The halfmove clock restarts at a pawn move or a capture and else
/// counts one more; the move number counts one more after Black has moved.
pub open spec fn played(b: BoardModel, m: Move) -> BoardModel {
    match b.pieces[m.start_square as int] {
        None => b,
        Some(p) => BoardModel {
            halfmove_clock: if p.kind is Pawn || m.is_en_passant || b.pieces[m.end_square as int]
                is Some {
                0
            } else {
                incremented(b.halfmove_clock)
            },
            fullmove_number: if b.side_to_play is Black {
                incremented(b.fullmove_number)
            } else {
                b.fullmove_number
            },
            ..executed(b, m)
        },
    }
}

/// The game after a move: the position after it, one more occurrence of its repetition
/// key, and the repetition flag set for good once a key has occurred three times.
pub open spec fn step(g: GameModel, m: Move) -> GameModel {
    let board = played(g.board, m);
    let key = repetition_key(board);
    let count = if g.positions.contains_key(key) {
        bumped(g.positions[key])
    } else {
        1
    };
    GameModel {
        board,
        positions: g.positions.insert(key, count),
        draw_by_repetition: g.draw_by_repetition || count >= 3,
    }
}

/// A game in progress: the board, each repetition key seen so far with the number of times
/// it has occurred (one entry per key), and whether some position has occurred three times.
pub struct Game {
    pub board: BoardState,
    pub previous_positions: Vec<(String, usize)>,
    pub draw_by_repetition: bool,
}

impl View for Game {
    type V = GameModel;

    open spec fn view(&self) -> GameModel {
        GameModel {
            board: model(self.board),
            positions: positions_of(self.previous_positions@),
            draw_by_repetition: self.draw_by_repetition,
        }
    }
}

proof fn lemma_positions_set(h: Seq<(String, usize)>, j: int, e: (String, usize))
    requires
        distinct_keys(h),
        0 <= j < h.len(),
        h[j].0@ == e.0@,
    ensures
        distinct_keys(h.update(j, e)),
        positions_of(h.update(j, e)) =~= positions_of(h).insert(e.0@, e.1 as nat),
{
    let h2 = h.update(j, e);
    assert forall|i: int, k: int|
        0 <= i < h2.len() && 0 <= k < h2.len() && i != k implies #[trigger] h2[i].0@
            != #[trigger] h2[k].0@ by {
        assert(h2[i].0@ == h[i].0@);
        assert(h2[k].0@ == h[k].0@);
    }
    assert forall|key: Seq<char>| #[trigger]
        positions_of(h2).contains_key(key) implies positions_of(h2)[key] == positions_of(h).insert(
            e.0@,
            e.1 as nat,
        )[key] by {
        let i = choose|i: int| 0 <= i < h2.len() && #[trigger] h2[i].0@ == key;
        if key == e.0@ {
            assert(i == j);
        } else {
            assert(h[i].0@ == key);
            let i1 = choose|i: int| 0 <= i < h.len() && #[trigger] h[i].0@ == key;
            assert(i1 == i);
        }
    }
    assert forall|key: Seq<char>| #[trigger]
        positions_of(h).insert(e.0@, e.1 as nat).contains_key(key) implies positions_of(
            h2,
        ).contains_key(key) by {
        if key == e.0@ {
            assert(h2[j].0@ == key);
        } else {
            let i = choose|i: int| 0 <= i < h.len() && #[trigger] h[i].0@ == key;
            assert(h2[i].0@ == key);
        }
    }
}

proof fn lemma_positions_push(h: Seq<(String, usize)>, e: (String, usize))
    requires
        distinct_keys(h),
        !positions_of(h).contains_key(e.0@),
    ensures
        distinct_keys(h.push(e)),
        positions_of(h.push(e)) =~= positions_of(h).insert(e.0@, e.1 as nat),
{
    let h2 = h.push(e);
    assert forall|i: int, k: int|
        0 <= i < h2.len() && 0 <= k < h2.len() && i != k implies #[trigger] h2[i].0@
            != #[trigger] h2[k].0@ by {
        if i < h.len() && k < h.len() {
            assert(h2[i] == h[i]);
            assert(h2[k] == h[k]);
        } else if i < h.len() {
            assert(h2[i] == h[i]);
        } else {
            assert(h2[k] == h[k]);
        }
    }
    assert forall|key: Seq<char>| #[trigger]
        positions_of(h2).contains_key(key) implies positions_of(h2)[key] == positions_of(h).insert(
            e.0@,
            e.1 as nat,
        )[key] by {
        let i = choose|i: int| 0 <= i < h2.len() && #[trigger] h2[i].0@ == key;
        if key == e.0@ {
            assert(i == h.len());
        } else {
            assert(h[i].0@ == key);
            let i1 = choose|i: int| 0 <= i < h.len() && #[trigger] h[i].0@ == key;
            assert(i1 == i);
        }
    }
    assert forall|key: Seq<char>| #[trigger]
        positions_of(h).insert(e.0@, e.1 as nat).contains_key(key) implies positions_of(
            h2,
        ).contains_key(key) by {
        if key == e.0@ {
            assert(h2[h.len() as int].0@ == key);
        } else {
            let i = choose|i: int| 0 <= i < h.len() && #[trigger] h[i].0@ == key;
            assert(h2[i].0@ == key);
        }
    }
}

impl Game {
    /// The board is well formed and the history holds each key once.
    pub open spec fn wf(&self) -> bool {
        &&& model(self.board).wf()
        &&& distinct_keys(self.previous_positions@)
    }

    /// Plays a move and counts the position it leads to; a third occurrence of a position
    /// (placement and side to move) draws the game for good.
    pub fn execute_move(&mut self, mov: &Move)
        requires
            old(self).wf(),
            move_wf(*mov),
        ensures
            final(self).wf(),
            final(self)@ == step(old(self)@, *mov),
    {
        let ghost g0 = self@;
        let start = mov.start_square;
        let (moves_piece, resets_clock) = match &self.board.pieces[start] {
            Some(p) => (
                true,
                matches!(p.kind, PieceKind::Pawn) || mov.is_en_passant
                    || self.board.pieces[mov.end_square].is_some(),
            ),
            None => (false, false),
        };
        let black_moves = matches!(self.board.side_to_play, Color::Black);
        mov.execute(&mut self.board);
        proof {
            crate::move_generation::lemma_executed_wf(g0.board, *mov);
        }
        if moves_piece {
            let half = self.board.halfmove_clock;
            self.board.halfmove_clock = if resets_clock {
                0
            } else if half < u64::MAX {
                half + 1
            } else {
                half
            };
            let full = self.board.fullmove_number;
            if black_moves && full < u64::MAX {
                self.board.fullmove_number = full + 1;
            }
        }
        assert(model(self.board) == played(g0.board, *mov));
        let text = board_to_fen(&self.board);
        let position = key_of_position(text.as_str());
        let ghost key = position@;
        let n = self.previous_positions.len();
        let mut i: usize = 0;
        let mut found = false;
        while i < n && !found
            invariant
                n == self.previous_positions@.len(),
                i <= n,
                found ==> i < n && self.previous_positions@[i as int].0@ == key,
                !found ==> forall|j: int|
                    0 <= j < i ==> #[trigger] self.previous_positions@[j].0@ != key,
                position@ == key,
            decreases n - i + (if found { 0int } else { 1int }),
        {
            if self.previous_positions[i].0 == position {
                found = true;
            } else {
                i = i + 1;
            }
        }
        let ghost h = self.previous_positions@;
        if found {
            let val = self.previous_positions[i].1;
            let new_val = if val < usize::MAX { val + 1 } else { val };
            if new_val >= 3 {
                self.draw_by_repetition = true;
            }
            proof {
                lemma_positions_set(h, i as int, (position, new_val));
            }
            self.previous_positions.set(i, (position, new_val));
        } else {
            proof {
                lemma_positions_push(h, (position, 1));
            }
            self.previous_positions.push((position, 1));
        }
    }
}

/// The piece kind that starts on file `f` of a back rank.
pub open spec fn back_rank_kind(f: int) -> PieceKind {
    if f == 0 || f == 7 {
        PieceKind::Rook
    } else if f == 1 || f == 6 {
        PieceKind::Knight
    } else if f == 2 || f == 5 {
        PieceKind::Bishop
    } else if f == 3 {
        PieceKind::Queen
    } else {
        PieceKind::King
    }
}

/// What stands on a square in the initial position of chess.
pub open spec fn initial_square(i: int) -> Option<Piece> {
    if i < 8 {
        Some(Piece { kind: back_rank_kind(i), color: Color::White })
    } else if i < 16 {
        Some(Piece { kind: PieceKind::Pawn, color: Color::White })
    } else if i < 48 {
        None
    } else if i < 56 {
        Some(Piece { kind: PieceKind::Pawn, color: Color::Black })
    } else {
        Some(Piece { kind: back_rank_kind(i - 56), color: Color::Black })
    }
}

/// The initial position: white to move, every castling right held, no en passant target,
/// move one.
pub open spec fn initial_model() -> BoardModel {
    BoardModel {
        pieces: Seq::new(64, |i: int| initial_square(i)),
        side_to_play: Color::White,
        white_can_oo: true,
        white_can_ooo: true,
        black_can_oo: true,
        black_can_ooo: true,
        en_passant_square: None,
        halfmove_clock: 0,
        fullmove_number: 1,
    }
}

fn back_rank_piece(f: usize) -> (r: PieceKind)
    ensures
        r == back_rank_kind(f as int),
{
    if f == 0 || f == 7 {
        PieceKind::Rook
    } else if f == 1 || f == 6 {
        PieceKind::Knight
    } else if f == 2 || f == 5 {
        PieceKind::Bishop
    } else if f == 3 {
        PieceKind::Queen
    } else {
        PieceKind::King
    }
}

/// The initial position of chess.
pub fn initial_board() -> (r: BoardState)
    ensures
        model(r) == initial_model(),
{
    let mut pieces: Vec<Option<Piece>> = Vec::new();
    let mut i: usize = 0;
    while i < 64
        invariant
            i <= 64,
            pieces@ == Seq::new(i as nat, |j: int| initial_square(j)),
        decreases 64 - i,
    {
        let square = if i < 8 {
            Some(Piece { kind: back_rank_piece(i), color: Color::White })
        } else if i < 16 {
            Some(Piece { kind: PieceKind::Pawn, color: Color::White })
        } else if i < 48 {
            None
        } else if i < 56 {
            Some(Piece { kind: PieceKind::Pawn, color: Color::Black })
        } else {
            Some(Piece { kind: back_rank_piece(i - 56), color: Color::Black })
        };
        pieces.push(square);
        i = i + 1;
        assert(pieces@ =~= Seq::new(i as nat, |j: int| initial_square(j)));
    }
    BoardState {
        pieces,
        side_to_play: Color::White,
        white_can_oo: true,
        white_can_ooo: true,
        black_can_oo: true,
        black_can_ooo: true,
        en_passant_square: None,
        halfmove_clock: 0,
        fullmove_number: 1,
    }
}

impl Game {
    /// A game that starts from `board`, whose position has occurred once.
    fn starting_at(board: BoardState) -> (r: Game)
        requires
            model(board).wf(),
        ensures
            r.wf(),
            r.board == board,
            r@.positions == map![repetition_key(model(board)) => 1nat],
            !r@.draw_by_repetition,
    {
        let text = board_to_fen(&board);
        let position = key_of_position(text.as_str());
        let mut previous_positions: Vec<(String, usize)> = Vec::new();
        let ghost key = position@;
        previous_positions.push((position, 1));
        let r = Game { board, previous_positions, draw_by_repetition: false };
        proof {
            assert(r.previous_positions@[0].0@ == key);
            assert(positions_of(r.previous_positions@) =~= map![key => 1nat]);
        }
        r
    }

    /// A game from the initial position of chess.
    pub fn new() -> (r: Game)
        ensures
            r.wf(),
            r@.board == initial_model(),
            r@.positions == map![repetition_key(initial_model()) => 1nat],
            !r@.draw_by_repetition,
    {
        Game::starting_at(initial_board())
    }

    /// A game from a position in Forsyth-Edwards notation; `None` where the text is
    /// malformed or not ASCII.
    pub fn start_from_fen(fen: &str) -> (r: Option<Game>)
        ensures
            r is Some <==> fen.is_ascii() && !placement_overruns(fen@) && fen_parse(fen@) is Some,
            r matches Some(g) ==> {
                &&& g.wf()
                &&& g@.board == fen_parse(fen@)->0
                &&& g@.positions == map![repetition_key(g@.board) => 1nat]
                &&& !g@.draw_by_repetition
            },
    {
        match board_from_fen(fen) {
            Some(board) => Some(Game::starting_at(board)),
            None => None,
        }
    }

    /// An independent copy of the game.
    pub fn duplicate(&self) -> (r: Game)
        requires
            self.wf(),
        ensures
            r.wf(),
            r@ == self@,
    {
        let mut previous_positions: Vec<(String, usize)> = Vec::new();
        let n = self.previous_positions.len();
        let mut i: usize = 0;
        while i < n
            invariant
                n == self.previous_positions@.len(),
                i <= n,
                previous_positions@.len() == i,
                forall|j: int|
                    0 <= j < i ==> #[trigger] previous_positions@[j].0@
                        == self.previous_positions@[j].0@
                    && previous_positions@[j].1 == self.previous_positions@[j].1,
            decreases n - i,
        {
            let entry = (self.previous_positions[i].0.clone(), self.previous_positions[i].1);
            previous_positions.push(entry);
            i = i + 1;
        }
        let r = Game {
            board: duplicate(&self.board),
            previous_positions,
            draw_by_repetition: self.draw_by_repetition,
        };
        proof {
            let h = self.previous_positions@;
            let h2 = r.previous_positions@;
            assert forall|i: int, k: int|
            0 <= i < h2.len() && 0 <= k < h2.len() && i != k implies #[trigger] h2[i].0@
                != #[trigger] h2[k].0@ by {
                assert(h2[i].0@ == h[i].0@);
                assert(h2[k].0@ == h[k].0@);
            }
            assert forall|key: Seq<char>| #[trigger]
                positions_of(h2).contains_key(key) implies positions_of(h2)[key]
                    == positions_of(h)[key] by {
                let i = choose|i: int| 0 <= i < h2.len() && #[trigger] h2[i].0@ == key;
                assert(h[i].0@ == key);
                let i1 = choose|i: int| 0 <= i < h.len() && #[trigger] h[i].0@ == key;
                assert(i1 == i);
            }
            assert forall|key: Seq<char>| #[trigger]
                positions_of(h).contains_key(key) implies positions_of(h2).contains_key(key) by {
                let i = choose|i: int| 0 <= i < h.len() && #[trigger] h[i].0@ == key;
                assert(h2[i].0@ == key);
            }
            assert(positions_of(h2) =~= positions_of(h));
        }
        r
    }
}

/// The game after a sequence of moves.
pub open spec fn play(g: GameModel, moves: Seq<Move>) -> GameModel
    decreases moves.len(),
{
    if moves.len() == 0 {
        g
    } else {
        step(play(g, moves.drop_last()), moves.last())
    }
}

/// The repetition flag, once set, stays set whatever is played.
pub proof fn lemma_repetition_flag_stays(g: GameModel, moves: Seq<Move>)
    requires
        g.draw_by_repetition,
    ensures
        play(g, moves).draw_by_repetition,
    decreases moves.len(),
{
    if moves.len() > 0 {
        lemma_repetition_flag_stays(g, moves.drop_last());
    }
}

/// Once a move leads to a position (placement and side to move) that has then occurred
/// three times, the game is drawn by repetition from that move on, whatever follows.
pub proof fn lemma_threefold_repetition_is_permanent(g: GameModel, moves: Seq<Move>, n: int)
    requires
        0 < n <= moves.len(),
        ({
            let h = play(g, moves.subrange(0, n));
            h.positions[repetition_key(h.board)] >= 3
        }),
    ensures
        play(g, moves).draw_by_repetition,
    decreases moves.len(),
{
    if n == moves.len() {
        assert(moves.subrange(0, n) =~= moves);
        assert(moves.drop_last() =~= moves.subrange(0, n).drop_last());
    } else {
        let rest = moves.drop_last();
        assert(rest.subrange(0, n) =~= moves.subrange(0, n));
        lemma_threefold_repetition_is_permanent(g, rest, n);
        lemma_repetition_flag_stays(play(g, rest), seq![moves.last()]);
        assert(seq![moves.last()].drop_last() =~= Seq::<Move>::empty());
    }
}

} // verus!
