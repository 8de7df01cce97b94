use vstd::prelude::*;
use crate::board::dynamic_state::DynamicState;
use crate::board::bit_board::{BitBoard, attacked_by, king_square};
use crate::board::piece_type::{PieceType, colored_piece};
use crate::board::player_color::{PlayerColor, other};
use crate::board::dynamic_state::{after_move, before_move, move_applicable};
use crate::board::piece_board::{PieceBoard, start_position_board};
use crate::board::piece_type::ColoredPieceType;
use crate::moves::chess_move::ChessMove;

verus! {

/// A position kept twice: as the piece on each square and as bitboards.
#[derive(Clone, Copy, PartialEq, Eq)]
pub struct BoardState {
    pub piece_board: PieceBoard,
    pub bit_board: BitBoard,
}

impl BoardState {
    /// The bitboards are valid and show the same position as the piece board.
    pub open spec fn wf(&self) -> bool {
        &&& self.bit_board.wf()
        &&& self.bit_board@ == self.piece_board@
    }
}

impl View for BoardState {
    type V = Seq<ColoredPieceType>;

    open spec fn view(&self) -> Seq<ColoredPieceType> {
        self.piece_board@
    }
}

impl BoardState {
    pub fn start_position() -> (r: BoardState)
        ensures
            r.wf(),
            r@ == start_position_board(),
    {
        let pb = PieceBoard::start_position();
        BoardState::from_piece_board(&pb)
    }

    pub fn from_piece_board(piece_board: &PieceBoard) -> (r: BoardState)
        ensures
            r.wf(),
            r@ == piece_board@,
    {
        BoardState { piece_board: *piece_board, bit_board: BitBoard::from_piece_board(piece_board) }
    }

    /// Whether the king of side `color` is attacked.
    pub fn is_in_check(&self, color: PlayerColor) -> (r: bool)
        requires
            self.wf(),
            exists|k: int| 0 <= k < 64 && self@[k] == colored_piece(PieceType::King, color),
        ensures
            exists|k: int| king_square(self@, color, k) && r == attacked_by(self@, k, other(color)),
    {
        self.bit_board.is_in_check(color)
    }

    /// Whether a piece of side `opponent_color` attacks square `s`.
    pub fn square_attacked(&self, s: i8, opponent_color: PlayerColor) -> (r: bool)
        requires
            self.wf(),
            0 <= s < 64,
        ensures
            r == attacked_by(self@, s as int, opponent_color),
    {
        self.bit_board.square_is_attacked_by(s, opponent_color)
    }

    /// Whether both forms of the position agree on every square.
    pub fn check_integrity(&self) -> (r: bool)
        requires
            self.bit_board.wf(),
        ensures
            r == (self.bit_board@ == self.piece_board@),
    {
        proof {
            self.piece_board.lemma_len();
        }
        let mut s: i8 = 0;
        while s < 64
            invariant
                0 <= s <= 64,
                self.bit_board.wf(),
                self.piece_board@.len() == 64,
                forall|t: int| 0 <= t < s ==> #[trigger] self.piece_board@[t] == self.bit_board@[t],
            decreases 64 - s,
        {
            if self.piece_board.get(s) != self.bit_board.get_colored_piecetype(s) {
                proof {
                    assert(self.bit_board@[s as int] != self.piece_board@[s as int]);
                }
                return false;
            }
            s = s + 1;
        }
        assert(self.bit_board@ =~= self.piece_board@);
        true
    }





}

impl DynamicState for BoardState {
    open spec fn squares(&self) -> Seq<ColoredPieceType> {
        self@
    }

    open spec fn valid(&self) -> bool {
        self.wf()
    }

    fn empty() -> (r: BoardState)
    {
        let r = BoardState { piece_board: PieceBoard::empty(), bit_board: BitBoard::empty() };
        assert(r.bit_board@ =~= r.piece_board@);
        r
    }
    fn add_piece(&mut self, pt: ColoredPieceType, s: i8)
    {
        self.piece_board.add_piece(pt, s);
        self.bit_board.add_piece(pt, s);
    }
    fn remove_piece(&mut self, pt: ColoredPieceType, s: i8)
    {
        self.piece_board.remove_piece(pt, s);
        self.bit_board.remove_piece(pt, s);
    }

    fn make_move(&mut self, m: ChessMove) {
        self.piece_board.make_move(m);
        self.bit_board.make_move(m);
    }

    fn undo_move(&mut self, m: ChessMove) {
        self.piece_board.undo_move(m);
        self.bit_board.undo_move(m);
    }
}

/// Making a move and taking it back leaves both forms of the position as they were.
pub proof fn law_board_state_undo(before: BoardState, after: BoardState, back: BoardState, m: ChessMove)
    requires
        before.wf(),
        move_applicable(before@, m),
        after@ == after_move(before@, m),
        back@ == before_move(after@, m),
    ensures
        back@ == before@,
{
    crate::board::dynamic_state::law_undo_after_make(before@, m);
}

} // verus!
