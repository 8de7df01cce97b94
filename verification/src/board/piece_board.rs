use vstd::prelude::*;
use crate::board::dynamic_state::DynamicState;
use crate::board::bit_board::BitBoard;
use crate::board::dynamic_state::{en_passant_victim, move_shape};
use crate::board::piece_type::{ColoredPieceType, PieceType, colored_piece};
use crate::board::player_color::PlayerColor;
use crate::board::square::{self, Square, file_of, rank_of, square_at};
use crate::moves::chess_move::{ChessMove, is_en_passant_spec};

verus! {

/// A position as the piece on each of the 64 squares.
#[derive(Clone, Copy, PartialEq, Eq)]
pub struct PieceBoard {
    squares: [ColoredPieceType; 64],
}

impl View for PieceBoard {
    type V = Seq<ColoredPieceType>;

    closed spec fn view(&self) -> Seq<ColoredPieceType> {
        self.squares@
    }
}

/// The start position of a game of chess.
pub open spec fn start_position_board() -> Seq<ColoredPieceType> {
    Seq::new(
        64,
        |s: int|
            if s < 8 {
                colored_piece(back_rank_piece(s), PlayerColor::White)
            } else if s < 16 {
                ColoredPieceType::WhitePawn
            } else if s < 48 {
                ColoredPieceType::Empty
            } else if s < 56 {
                ColoredPieceType::BlackPawn
            } else {
                colored_piece(back_rank_piece(s - 56), PlayerColor::Black)
            },
    )
}

/// The piece that starts on file `file` of its side's first rank.
pub open spec fn back_rank_piece(file: int) -> PieceType {
    if file == 0 || file == 7 {
        PieceType::Rook
    } else if file == 1 || file == 6 {
        PieceType::Knight
    } else if file == 2 || file == 5 {
        PieceType::Bishop
    } else if file == 3 {
        PieceType::Queen
    } else {
        PieceType::King
    }
}

impl PieceBoard {
    pub proof fn lemma_len(&self)
        ensures
            self@.len() == 64,
    {
    }


    pub fn get(&self, square: i8) -> (r: ColoredPieceType)
        requires
            0 <= square < 64,
        ensures
            r == self@[square as int],
    {
        self.squares[square as usize]
    }

    pub fn set(&mut self, square: i8, pt: ColoredPieceType)
        requires
            0 <= square < 64,
        ensures
            final(self)@ == old(self)@.update(square as int, pt),
    {
        self.squares[square as usize] = pt;
    }

    pub fn start_position() -> (r: PieceBoard)
        ensures
            r@ == start_position_board(),
    {
        let mut pb = PieceBoard::empty();
        pb.set(square::A1, ColoredPieceType::WhiteRook);
        pb.set(square::B1, ColoredPieceType::WhiteKnight);
        pb.set(square::C1, ColoredPieceType::WhiteBishop);
        pb.set(square::D1, ColoredPieceType::WhiteQueen);
        pb.set(square::E1, ColoredPieceType::WhiteKing);
        pb.set(square::F1, ColoredPieceType::WhiteBishop);
        pb.set(square::G1, ColoredPieceType::WhiteKnight);
        pb.set(square::H1, ColoredPieceType::WhiteRook);
        pb.set(square::A8, ColoredPieceType::BlackRook);
        pb.set(square::B8, ColoredPieceType::BlackKnight);
        pb.set(square::C8, ColoredPieceType::BlackBishop);
        pb.set(square::D8, ColoredPieceType::BlackQueen);
        pb.set(square::E8, ColoredPieceType::BlackKing);
        pb.set(square::F8, ColoredPieceType::BlackBishop);
        pb.set(square::G8, ColoredPieceType::BlackKnight);
        pb.set(square::H8, ColoredPieceType::BlackRook);
        let mut s = square::A2;
        while s <= square::H2
            invariant
                8 <= s <= 16,
                pb@.len() == 64,
                forall|t: int| 0 <= t < 8 || 56 <= t < 64 ==> #[trigger] pb@[t] == start_position_board()[t],
                forall|t: int| 8 <= t < s ==> #[trigger] pb@[t] == ColoredPieceType::WhitePawn,
                forall|t: int| s <= t < 56 ==> #[trigger] pb@[t] == ColoredPieceType::Empty,
            decreases 16 - s,
        {
            pb.set(s, ColoredPieceType::WhitePawn);
            s = s + 1;
        }
        let mut s = square::A7;
        while s <= square::H7
            invariant
                48 <= s <= 56,
                pb@.len() == 64,
                forall|t: int| 0 <= t < 8 || 56 <= t < 64 ==> #[trigger] pb@[t] == start_position_board()[t],
                forall|t: int| 8 <= t < 16 ==> #[trigger] pb@[t] == ColoredPieceType::WhitePawn,
                forall|t: int| 16 <= t < 48 ==> #[trigger] pb@[t] == ColoredPieceType::Empty,
                forall|t: int| 48 <= t < s ==> #[trigger] pb@[t] == ColoredPieceType::BlackPawn,
                forall|t: int| s <= t < 56 ==> #[trigger] pb@[t] == ColoredPieceType::Empty,
            decreases 56 - s,
        {
            pb.set(s, ColoredPieceType::BlackPawn);
            s = s + 1;
        }
        assert(pb@ =~= start_position_board());
        pb
    }

    pub fn from_bit_board(bit_board: &BitBoard) -> (r: PieceBoard)
        requires
            bit_board.wf(),
        ensures
            r@ == bit_board@,
    {
        let mut board = PieceBoard::empty();
        let mut s: i8 = 0;
        while s < 64
            invariant
                0 <= s <= 64,
                bit_board.wf(),
                board@.len() == 64,
                forall|t: int| 0 <= t < s ==> #[trigger] board@[t] == bit_board@[t],
            decreases 64 - s,
        {
            let pt = bit_board.get_colored_piecetype(s);
            board.set(s, pt);
            s = s + 1;
        }
        assert(board@ =~= bit_board@);
        board
    }

    pub fn get_move(&self, start: i8, target: i8) -> (r: ChessMove)
        requires
            0 <= start < 64,
            0 <= target < 64,
            self@[start as int] != ColoredPieceType::Empty,
        ensures
            r == ChessMove::spec_new(start, target, self@[start as int], self@[target as int]),
    {
        ChessMove::new(start, target, self.get(start), self.get(target))
    }




}

/// The square shown at row `row` (counted from the top) and column `col` of a board drawn
/// from the side of `perspective`.
pub open spec fn drawn_square(perspective: PlayerColor, row: int, col: int) -> int {
    if perspective == PlayerColor::White {
        square_at(col, 7 - row)
    } else {
        square_at(7 - col, row)
    }
}

impl PieceBoard {
    /// The cells of the board as drawn from the side of `perspective`, row by row from the top
    /// and left to right: the piece on each square and whether the square is light.
    pub fn perspective_cells(&self, perspective: PlayerColor) -> (r: Vec<(ColoredPieceType, bool)>)
        ensures
            r@.len() == 64,
            forall|i: int|
                0 <= i < 64 ==> #[trigger] r@[i] == (self@[drawn_square(perspective, i / 8, i % 8)], (rank_of(
                    drawn_square(perspective, i / 8, i % 8),
                ) + file_of(drawn_square(perspective, i / 8, i % 8))) % 2 == 1),
    {
        let mut cells: Vec<(ColoredPieceType, bool)> = Vec::new();
        let mut rank: i8 = 7;
        while rank >= 0
            invariant
                -1 <= rank <= 7,
                cells@.len() == 8 * (7 - rank),
                forall|i: int|
                    0 <= i < cells@.len() ==> #[trigger] cells@[i] == (self@[drawn_square(perspective, i / 8, i % 8)], (
                    rank_of(drawn_square(perspective, i / 8, i % 8)) + file_of(drawn_square(perspective, i / 8, i % 8)))
                        % 2 == 1),
            decreases rank + 1,
        {
            let mut file: i8 = 0;
            while file < 8
                invariant
                    0 <= rank <= 7,
                    0 <= file <= 8,
                    cells@.len() == 8 * (7 - rank) + file,
                    forall|i: int|
                        0 <= i < cells@.len() ==> #[trigger] cells@[i] == (self@[drawn_square(perspective, i / 8, i % 8)], (
                        rank_of(drawn_square(perspective, i / 8, i % 8)) + file_of(drawn_square(perspective, i / 8, i % 8)))
                            % 2 == 1),
                decreases 8 - file,
            {
                let square = match perspective {
                    PlayerColor::White => square::from_file_rank(file, rank),
                    PlayerColor::Black => square::from_file_rank(7 - file, 7 - rank),
                };
                let ghost i = cells@.len() as int;
                assert(i / 8 == 7 - rank && i % 8 == file);
                assert(square == drawn_square(perspective, i / 8, i % 8));
                cells.push((self.get(square), square.is_light()));
                file = file + 1;
            }
            rank = rank - 1;
        }
        cells
    }
}

/// The start and end squares of the rook of a castling move.
pub fn castle_squares(m: ChessMove) -> (r: (i8, i8))
    requires
        move_shape(m),
    ensures
        r.0 == castle_rook_squares_spec(m).0,
        r.1 == castle_rook_squares_spec(m).1,
        0 <= r.0 < 64,
        0 <= r.1 < 64,
{
    let (rook_start_file, rook_end_file) = if m.is_long_castle() {
        (0, 3)
    } else {
        (7, 5)
    };
    let rank = m.start.rank();
    let rook_start = square::from_file_rank(rook_start_file, rank);
    let rook_end = square::from_file_rank(rook_end_file, rank);
    (rook_start, rook_end)
}

pub open spec fn castle_rook_squares_spec(m: ChessMove) -> (int, int) {
    crate::board::dynamic_state::castle_rook_squares(m)
}

/// The square of the pawn that an en passant move takes.
pub fn en_passant_square(m: ChessMove) -> (r: i8)
    requires
        move_shape(m),
        is_en_passant_spec(m),
    ensures
        r == en_passant_victim(m),
        0 <= r < 64,
{
    match m.move_piece.color() {
        PlayerColor::White => m.end.down(),
        PlayerColor::Black => m.end.up(),
    }
}

impl DynamicState for PieceBoard {
    open spec fn squares(&self) -> Seq<ColoredPieceType> {
        self@
    }

    open spec fn valid(&self) -> bool {
        true
    }

    fn empty() -> (r: PieceBoard)
    {
        let r = PieceBoard { squares: [ColoredPieceType::Empty; 64] };
        assert(r@ =~= Seq::new(64, |s: int| ColoredPieceType::Empty));
        r
    }
    fn add_piece(&mut self, pt: ColoredPieceType, s: i8)
    {
        self.set(s, pt);
    }
    fn remove_piece(&mut self, pt: ColoredPieceType, s: i8)
    {
        self.set(s, ColoredPieceType::Empty);
    }

    fn make_move(&mut self, m: ChessMove) {
        if m.is_castle() {
            let (rook_start, rook_end) = castle_squares(m);
            self.remove_piece(PieceType::Rook.colored(m.move_piece.color()), rook_start);
            self.add_piece(PieceType::Rook.colored(m.move_piece.color()), rook_end);
        }
        if m.is_direct_capture() {
            self.remove_piece(m.captured_piece, m.end);
        }
        self.remove_piece(m.move_piece, m.start);
        if m.is_en_passant() {
            let victim = en_passant_square(m);
            self.remove_piece(m.move_piece.opposite(), victim);
        }
        if m.is_promotion() {
            self.add_piece(m.promotion_piece, m.end);
        } else {
            self.add_piece(m.move_piece, m.end);
        }
    }

    fn undo_move(&mut self, m: ChessMove) {
        if m.is_castle() {
            let (rook_start, rook_end) = castle_squares(m);
            self.remove_piece(PieceType::Rook.colored(m.move_piece.color()), rook_end);
            self.add_piece(PieceType::Rook.colored(m.move_piece.color()), rook_start);
        }
        if m.is_promotion() {
            self.remove_piece(m.promotion_piece, m.end);
        } else {
            self.remove_piece(m.move_piece, m.end);
        }
        if m.is_direct_capture() {
            self.add_piece(m.captured_piece, m.end);
        }
        if m.is_en_passant() {
            let victim = en_passant_square(m);
            self.add_piece(m.move_piece.opposite(), victim);
        }
        self.add_piece(m.move_piece, m.start);
    }
}

} // verus!
