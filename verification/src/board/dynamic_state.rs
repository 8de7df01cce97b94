use vstd::prelude::*;
use crate::board::piece_type::{ColoredPieceType, PieceType, colored_piece, color_of, piece_type_of};
use crate::board::player_color::{PlayerColor, other};
use crate::board::square::{rank_of, square_at, valid_square};
use crate::moves::chess_move::{ChessMove, on_board, is_castle_spec, is_long_castle_spec, is_direct_capture_spec, is_en_passant_spec, is_promotion_spec};

verus! {

/// A position with 64 squares.
pub open spec fn is_board(v: Seq<ColoredPieceType>) -> bool {
    v.len() == 64
}

/// Where the rook of a castling move starts and ends.
pub open spec fn castle_rook_squares(m: ChessMove) -> (int, int) {
    let rank = rank_of(m.start as int);
    if is_long_castle_spec(m) {
        (square_at(0, rank), square_at(3, rank))
    } else {
        (square_at(7, rank), square_at(5, rank))
    }
}

/// The square of the pawn that an en passant capture takes.
pub open spec fn en_passant_victim(m: ChessMove) -> int {
    if color_of(m.move_piece) == PlayerColor::White {
        m.end - 8
    } else {
        m.end + 8
    }
}

/// The piece that stands on the target square after the move.
pub open spec fn arriving_piece(m: ChessMove) -> ColoredPieceType {
    if is_promotion_spec(m) {
        m.promotion_piece
    } else {
        m.move_piece
    }
}

pub open spec fn castle_rook(m: ChessMove) -> ColoredPieceType {
    colored_piece(PieceType::Rook, color_of(m.move_piece))
}

/// The position after move `m`: a castling rook goes from its corner to the king's side, a
/// taken piece leaves the target square, the moving piece leaves its start square, a pawn taken
/// en passant leaves the board, and the moving piece (or the piece it is promoted to) arrives.
pub open spec fn after_move(v: Seq<ColoredPieceType>, m: ChessMove) -> Seq<ColoredPieceType> {
    let (rs, re) = castle_rook_squares(m);
    let v1 = if is_castle_spec(m) {
        v.update(rs, ColoredPieceType::Empty).update(re, castle_rook(m))
    } else {
        v
    };
    let v2 = if is_direct_capture_spec(m) {
        v1.update(m.end as int, ColoredPieceType::Empty)
    } else {
        v1
    };
    let v3 = v2.update(m.start as int, ColoredPieceType::Empty);
    let v4 = if is_en_passant_spec(m) {
        v3.update(en_passant_victim(m), ColoredPieceType::Empty)
    } else {
        v3
    };
    v4.update(m.end as int, arriving_piece(m))
}

/// The position before move `m`, read back from the position after it.
pub open spec fn before_move(v: Seq<ColoredPieceType>, m: ChessMove) -> Seq<ColoredPieceType> {
    let (rs, re) = castle_rook_squares(m);
    let v1 = if is_castle_spec(m) {
        v.update(re, ColoredPieceType::Empty).update(rs, castle_rook(m))
    } else {
        v
    };
    let v2 = v1.update(m.end as int, ColoredPieceType::Empty);
    let v3 = if is_direct_capture_spec(m) {
        v2.update(m.end as int, m.captured_piece)
    } else {
        v2
    };
    let v4 = if is_en_passant_spec(m) {
        v3.update(en_passant_victim(m), colored_piece(piece_type_of(m.move_piece), other(color_of(m.move_piece))))
    } else {
        v3
    };
    v4.update(m.start as int, m.move_piece)
}

/// The squares that a move reads and writes are on the board, and those that must differ do.
pub open spec fn move_shape(m: ChessMove) -> bool {
    let (rs, re) = castle_rook_squares(m);
    &&& on_board(m)
    &&& m.move_piece != ColoredPieceType::Empty
    &&& m.start != m.end
    &&& is_castle_spec(m) ==> rs != re && rs != m.start && rs != m.end && re != m.start && re != m.end
        && !is_direct_capture_spec(m) && !is_promotion_spec(m)
    &&& is_en_passant_spec(m) ==> valid_square(en_passant_victim(m)) && en_passant_victim(m) != m.start
        && en_passant_victim(m) != m.end && !is_castle_spec(m)
}

/// Move `m` fits position `v`: the moving piece stands on its start square, the target square
/// holds the piece it takes (or nothing), a castling rook stands in its corner with its
/// target square free, and a pawn taken en passant stands behind the target square.
pub open spec fn move_applicable(v: Seq<ColoredPieceType>, m: ChessMove) -> bool {
    let (rs, re) = castle_rook_squares(m);
    &&& is_board(v)
    &&& move_shape(m)
    &&& v[m.start as int] == m.move_piece
    &&& v[m.end as int] == m.captured_piece
    &&& is_castle_spec(m) ==> v[rs] == castle_rook(m) && v[re] == ColoredPieceType::Empty
    &&& is_en_passant_spec(m) ==> v[en_passant_victim(m)] == colored_piece(piece_type_of(m.move_piece), other(color_of(m.move_piece)))
}

/// Move `m` can be taken back in position `v`: `v` looks as the position after `m` does.
pub open spec fn undo_applicable(v: Seq<ColoredPieceType>, m: ChessMove) -> bool {
    let (rs, re) = castle_rook_squares(m);
    &&& is_board(v)
    &&& move_shape(m)
    &&& v[m.start as int] == ColoredPieceType::Empty
    &&& v[m.end as int] == arriving_piece(m)
    &&& is_castle_spec(m) ==> v[re] == castle_rook(m) && v[rs] == ColoredPieceType::Empty
    &&& is_en_passant_spec(m) ==> v[en_passant_victim(m)] == ColoredPieceType::Empty
}

/// Taking back a move that was made gives the position before it, and the position after a
/// move is one in which the move can be taken back.
pub proof fn law_undo_after_make(v: Seq<ColoredPieceType>, m: ChessMove)
    requires
        move_applicable(v, m),
    ensures
        undo_applicable(after_move(v, m), m),
        before_move(after_move(v, m), m) == v,
{
    assert(before_move(after_move(v, m), m) =~= v);
}

/// Making a move that was taken back gives the position after it again.
pub proof fn law_make_after_undo(v: Seq<ColoredPieceType>, m: ChessMove)
    requires
        undo_applicable(v, m),
    ensures
        move_applicable(before_move(v, m), m),
        after_move(before_move(v, m), m) == v,
{
    assert(after_move(before_move(v, m), m) =~= v);
}

/// A state that follows the pieces of a position: pieces come and go one at a time, and a move
/// is made or taken back as the pieces that it moves.
pub trait DynamicState {
    /// The piece on each square.
    spec fn squares(&self) -> Seq<ColoredPieceType>;

    /// The state is consistent.
    spec fn valid(&self) -> bool;

    /// The state of the empty board.
    fn empty() -> (r: Self)
        where
            Self: Sized,
        ensures
            r.valid(),
            r.squares() == Seq::new(64, |s: int| ColoredPieceType::Empty),
    ;

    /// Puts piece `pt` on the empty square `s`.
    fn add_piece(&mut self, pt: ColoredPieceType, s: i8)
        requires
            old(self).valid(),
            0 <= s < 64,
            pt != ColoredPieceType::Empty,
            old(self).squares()[s as int] == ColoredPieceType::Empty,
        ensures
            final(self).valid(),
            final(self).squares() == old(self).squares().update(s as int, pt),
    ;

    /// Takes piece `pt` from square `s`.
    fn remove_piece(&mut self, pt: ColoredPieceType, s: i8)
        requires
            old(self).valid(),
            0 <= s < 64,
            pt != ColoredPieceType::Empty,
            old(self).squares()[s as int] == pt,
        ensures
            final(self).valid(),
            final(self).squares() == old(self).squares().update(s as int, ColoredPieceType::Empty),
    ;

    /// Makes move `m`: the castling rook, the taken piece, the moving piece and a pawn taken en
    /// passant leave their squares, and the moving (or promoted) piece arrives.
    fn make_move(&mut self, m: ChessMove)
        requires
            old(self).valid(),
            move_applicable(old(self).squares(), m),
        ensures
            final(self).valid(),
            final(self).squares() == after_move(old(self).squares(), m),
    ;

    /// Takes back move `m`, the steps of `make_move` undone in reverse.
    fn undo_move(&mut self, m: ChessMove)
        requires
            old(self).valid(),
            undo_applicable(old(self).squares(), m),
        ensures
            final(self).valid(),
            final(self).squares() == before_move(old(self).squares(), m),
    ;
}

} // verus!
