use vstd::prelude::*;
use crate::board::bit_board::{BitBoard, pawn_neighbour};
use crate::board::piece_type::{ColoredPieceType, PieceType, color_of, piece_type_of};
use crate::board::player_color::{PlayerColor, other};
use crate::board::square::{self, Square, rank_of, valid_square};
use crate::moves::chess_move::{ChessMove, on_board};

verus! {

/// The state of a game besides the pieces: the side to move, the castling rights, and the
/// square that a pawn can take en passant (`square::NONE` if there is none).
#[derive(Debug, Clone, Copy, PartialEq, Eq, Structural)]
pub struct GameFlags {
    pub active_color: PlayerColor,
    pub white_queen_side_castle: bool,
    pub white_king_side_castle: bool,
    pub black_queen_side_castle: bool,
    pub black_king_side_castle: bool,
    pub en_passant_square: i8,
}

/// Whether a pawn move of `m` goes two ranks.
pub open spec fn is_double_push(m: ChessMove) -> bool {
    piece_type_of(m.move_piece) == PieceType::Pawn && (rank_of(m.start as int) - rank_of(m.end as int) == 2
        || rank_of(m.end as int) - rank_of(m.start as int) == 2)
}

/// A castling right stays while neither the king moves nor anything moves from or to its rook's
/// corner.
pub open spec fn keeps_right(right: bool, m: ChessMove, king: ColoredPieceType, corner: int) -> bool {
    right && m.move_piece != king && m.start != corner && m.end != corner
}

/// The flags after move `m`, where `v` is the position after the move: the other side moves,
/// castling rights are lost as `keeps_right` says, and a pawn that went two ranks past a pawn of
/// the other side leaves the square it passed as the en passant square.
pub open spec fn flags_after_move(f: GameFlags, m: ChessMove, v: Seq<ColoredPieceType>) -> GameFlags {
    GameFlags {
        active_color: other(f.active_color),
        white_queen_side_castle: keeps_right(f.white_queen_side_castle, m, ColoredPieceType::WhiteKing, 0),
        white_king_side_castle: keeps_right(f.white_king_side_castle, m, ColoredPieceType::WhiteKing, 7),
        black_queen_side_castle: keeps_right(f.black_queen_side_castle, m, ColoredPieceType::BlackKing, 56),
        black_king_side_castle: keeps_right(f.black_king_side_castle, m, ColoredPieceType::BlackKing, 63),
        en_passant_square: if is_double_push(m) && pawn_neighbour(v, color_of(m.move_piece), m.end as int) {
            double_push_passed(m) as i8
        } else {
            64
        },
    }
}

/// A castling right survives a move exactly when the side still had it and the move is
/// neither made by that side's king nor starts or ends on that right's own rook corner (a1
/// for white's long castling, h1 for white's short, a8 and h8 for black's); a move elsewhere
/// leaves every other right as it was, and the other side moves next.
pub proof fn law_castling_rights_after_move(f: GameFlags, m: ChessMove, v: Seq<ColoredPieceType>)
    ensures
        flags_after_move(f, m, v).active_color == other(f.active_color),
        flags_after_move(f, m, v).white_queen_side_castle == (f.white_queen_side_castle && m.move_piece
            != ColoredPieceType::WhiteKing && m.start != 0 && m.end != 0),
        flags_after_move(f, m, v).white_king_side_castle == (f.white_king_side_castle && m.move_piece
            != ColoredPieceType::WhiteKing && m.start != 7 && m.end != 7),
        flags_after_move(f, m, v).black_queen_side_castle == (f.black_queen_side_castle && m.move_piece
            != ColoredPieceType::BlackKing && m.start != 56 && m.end != 56),
        flags_after_move(f, m, v).black_king_side_castle == (f.black_king_side_castle && m.move_piece
            != ColoredPieceType::BlackKing && m.start != 63 && m.end != 63),
{
}

/// The square that a pawn going two ranks passes.
pub open spec fn double_push_passed(m: ChessMove) -> int {
    if color_of(m.move_piece) == PlayerColor::White {
        m.end - 8
    } else {
        m.end + 8
    }
}

/// The flags of the start position: white to move, every castling right, no en passant square.
pub open spec fn initial_flags() -> GameFlags {
    GameFlags {
        active_color: PlayerColor::White,
        white_queen_side_castle: true,
        white_king_side_castle: true,
        black_queen_side_castle: true,
        black_king_side_castle: true,
        en_passant_square: 64,
    }
}

impl GameFlags {
    pub fn start_flags() -> (r: GameFlags)
        ensures
            r == initial_flags(),
    {
        GameFlags {
            active_color: PlayerColor::White,
            white_queen_side_castle: true,
            white_king_side_castle: true,
            black_queen_side_castle: true,
            black_king_side_castle: true,
            en_passant_square: square::NONE,
        }
    }

    pub fn empty_flags() -> (r: GameFlags)
        ensures
            r == (GameFlags {
                active_color: PlayerColor::White,
                white_queen_side_castle: false,
                white_king_side_castle: false,
                black_queen_side_castle: false,
                black_king_side_castle: false,
                en_passant_square: 64,
            }),
    {
        GameFlags {
            active_color: PlayerColor::White,
            white_queen_side_castle: false,
            white_king_side_castle: false,
            black_queen_side_castle: false,
            black_king_side_castle: false,
            en_passant_square: square::NONE,
        }
    }

    /// Updates the flags for move `m`; `board` is the position after the move.
    pub fn make_move(&mut self, m: ChessMove, board: &BitBoard)
        requires
            on_board(m),
            m.move_piece != ColoredPieceType::Empty,
            board.wf(),
            is_double_push(m) ==> valid_square(double_push_passed(m)),
        ensures
            *final(self) == flags_after_move(*old(self), m, board@),
    {
        self.active_color = core::ops::Not::not(self.active_color);
        match m.move_piece {
            ColoredPieceType::WhiteKing => {
                self.white_king_side_castle = false;
                self.white_queen_side_castle = false;
            },
            ColoredPieceType::BlackKing => {
                self.black_king_side_castle = false;
                self.black_queen_side_castle = false;
            },
            _ => {},
        }
        match m.start {
            square::A1 => self.white_queen_side_castle = false,
            square::H1 => self.white_king_side_castle = false,
            square::A8 => self.black_queen_side_castle = false,
            square::H8 => self.black_king_side_castle = false,
            _ => {},
        }
        match m.end {
            square::A1 => self.white_queen_side_castle = false,
            square::H1 => self.white_king_side_castle = false,
            square::A8 => self.black_queen_side_castle = false,
            square::H8 => self.black_king_side_castle = false,
            _ => {},
        }
        let start_rank = m.start.rank();
        let end_rank = m.end.rank();
        let two_ranks = start_rank - end_rank == 2 || end_rank - start_rank == 2;
        if m.move_piece.is_pawn() && two_ranks && board.pawn_has_neighbour(m.move_piece.color(), m.end) {
            self.en_passant_square = match m.move_piece.color() {
                PlayerColor::White => m.end.down(),
                PlayerColor::Black => m.end.up(),
            };
        } else {
            self.en_passant_square = square::NONE;
        }
    }
}

} // verus!
