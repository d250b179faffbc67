use vstd::prelude::*;
use fen::{Color, PieceKind};
use crate::board::{duplicate, inverse_color, model, opponent, BoardModel};
use crate::move_generation::{in_check, legal_move, legal_moves, player_in_check};
use crate::move_utils::Move;
use crate::{Game, GameModel};

verus! {

/// Whether the king of the side to move is attacked by the other side.
pub open spec fn side_to_move_in_check(b: BoardModel) -> bool {
    in_check(BoardModel { side_to_play: opponent(b.side_to_play), ..b })
}

pub open spec fn has_legal_move(b: BoardModel) -> bool {
    exists|m: Move| #[trigger] legal_move(b, m)
}

pub open spec fn is_checkmate(b: BoardModel) -> bool {
    !has_legal_move(b) && side_to_move_in_check(b)
}

pub open spec fn is_stalemate(b: BoardModel) -> bool {
    !has_legal_move(b) && !side_to_move_in_check(b)
}

/// Every piece on the board is a king.
pub open spec fn only_kings(b: BoardModel) -> bool {
    forall|i: int| 0 <= i < 64 ==> (#[trigger] b.pieces[i] matches Some(p) ==> p.kind is King)
}

/// A draw: the move counter has reached 100, only kings are left, the side to move is
/// stalemated, or a position has occurred three times.
pub open spec fn is_drawn(g: GameModel) -> bool {
    ||| g.board.fullmove_number >= 100
    ||| only_kings(g.board)
    ||| is_stalemate(g.board)
    ||| g.draw_by_repetition
}

/// Checkmate and stalemate exclude each other; checkmate leaves no legal move with the king
/// in check, stalemate no legal move with the king safe; and a position that is neither has
/// a legal move.
pub proof fn lemma_end_states(b: BoardModel)
    ensures
        is_checkmate(b) ==> !has_legal_move(b) && side_to_move_in_check(b),
        is_stalemate(b) ==> !has_legal_move(b) && !side_to_move_in_check(b),
        !(is_checkmate(b) && is_stalemate(b)),
        has_legal_move(b) || is_checkmate(b) || is_stalemate(b),
{
}

impl Game {
    /// Whether the king of the side to move is attacked.
    pub fn current_player_in_check(&self) -> (r: bool)
        requires
            self.wf(),
        ensures
            r == side_to_move_in_check(self@.board),
    {
        let mut simulation_board = duplicate(&self.board);
        simulation_board.side_to_play = inverse_color(&simulation_board.side_to_play);
        assert(model(simulation_board) == (BoardModel {
            side_to_play: opponent(self@.board.side_to_play),
            ..self@.board
        }));
        player_in_check(&simulation_board)
    }

    fn has_no_legal_move(&self) -> (r: bool)
        requires
            self.wf(),
        ensures
            r == !has_legal_move(self@.board),
    {
        let moves = legal_moves(&self.board);
        proof {
            if moves@.len() > 0 {
                assert(moves@.contains(moves@[0]));
                assert(legal_move(self@.board, moves@[0]));
            }
            if has_legal_move(self@.board) {
                let m = choose|m: Move| #[trigger] legal_move(self@.board, m);
                assert(moves@.contains(m));
            }
        }
        moves.len() == 0
    }

    pub fn current_player_is_checkmate(&self) -> (r: bool)
        requires
            self.wf(),
        ensures
            r == is_checkmate(self@.board),
    {
        self.has_no_legal_move() && self.current_player_in_check()
    }

    pub fn current_player_is_stalemate(&self) -> (r: bool)
        requires
            self.wf(),
        ensures
            r == is_stalemate(self@.board),
    {
        self.has_no_legal_move() && !self.current_player_in_check()
    }

    /// Whether only kings are left on the board, however many and of whichever color.
    pub fn insufficient_material(&self) -> (r: bool)
        requires
            self.wf(),
        ensures
            r == only_kings(self@.board),
    {
        let mut i: usize = 0;
        while i < 64
            invariant
                self.wf(),
                i <= 64,
                forall|j: int|
                    0 <= j < i ==> (#[trigger] self@.board.pieces[j] matches Some(p) ==> p.kind
                        is King),
            decreases 64 - i,
        {
            let not_king = match &self.board.pieces[i] {
                Some(p) => !matches!(p.kind, PieceKind::King),
                None => false,
            };
            if not_king {
                return false;
            }
            i = i + 1;
        }
        true
    }

    /// The side that has just moved, if it has checkmated the other.
    pub fn winner(&self) -> (r: Option<Color>)
        requires
            self.wf(),
        ensures
            r == (if is_checkmate(self@.board) {
                Some(opponent(self@.board.side_to_play))
            } else {
                None
            }),
    {
        if !self.current_player_is_checkmate() {
            return None;
        }
        Some(inverse_color(&self.board.side_to_play))
    }

    pub fn is_draw(&self) -> (r: bool)
        requires
            self.wf(),
        ensures
            r == is_drawn(self@),
    {
        self.board.fullmove_number >= 100 || self.insufficient_material()
            || self.current_player_is_stalemate() || self.draw_by_repetition
    }
}

} // verus!
