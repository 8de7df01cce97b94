use vstd::prelude::*;
use crate::board::piece_type::{ColoredPieceType, PieceType, colored_piece, piece_type_of, piece_char};
use crate::board::player_color::PlayerColor;
use crate::board::square::{Square, file_char, file_name, file_of, rank_of, valid_square, square_name};
use crate::moves::move_vector::{move_at, move_count, move_items, MoveVector};
use crate::moves::uci_move::UciMove;
use crate::text::push_char;

verus! {

#[derive(Debug, Clone, Copy, PartialEq, Eq, Structural)]
pub struct ChessMove {
    pub start: i8,
    pub end: i8,
    pub move_piece: ColoredPieceType,
    pub captured_piece: ColoredPieceType,
    pub promotion_piece: ColoredPieceType,
}

/// The short algebraic name of a move on the board that is no castling holds an 'x'
/// exactly when the move takes a piece, directly or en passant, whatever piece moves.
pub proof fn law_san_capture_mark(m: ChessMove, list: Seq<ChessMove>)
    requires
        on_board(m),
        !is_castle_spec(m),
    ensures
        san_text(m, list).contains('x') == (is_direct_capture_spec(m) || is_en_passant_spec(m)),
{
    let pawn = piece_type_of(m.move_piece) == PieceType::Pawn;
    let capture = is_direct_capture_spec(m) || is_en_passant_spec(m);
    let p1 = if pawn {
        if capture { seq![file_char(file_of(m.start as int))] } else { Seq::<char>::empty() }
    } else {
        seq![piece_char(colored_piece(piece_type_of(m.move_piece), PlayerColor::White))]
    };
    let p2 = if has_rival(m, list) && !pawn { square_name(m.start as int) } else { Seq::<char>::empty() };
    let p3 = if capture { seq!['x'] } else { Seq::<char>::empty() };
    let p4 = square_name(m.end as int);
    let p5 = if is_promotion_spec(m) { seq![piece_char(m.promotion_piece)] } else { Seq::<char>::empty() };
    let t = san_text(m, list);
    assert(t == p1 + p2 + p3 + p4 + p5);
    lemma_name_chars(m.start as int);
    lemma_name_chars(m.end as int);
    assert(file_char(file_of(m.start as int)) != 'x');
    assert forall|c: ColoredPieceType| piece_char(c) != 'x' by {}
    let n1 = p1.len() + p2.len();
    if capture {
        assert(t[n1 as int] == 'x');
    }
    if t.contains('x') {
        let i = choose|i: int| 0 <= i < t.len() && t[i] == 'x';
        if !capture {
            assert(p3.len() == 0);
            if i < p1.len() {
                assert(t[i] == p1[i]);
            } else if i < p1.len() + p2.len() {
                assert(t[i] == p2[i - p1.len()]);
            } else if i < p1.len() + p2.len() + p4.len() {
                assert(t[i] == p4[i - p1.len() - p2.len()]);
            } else {
                assert(t[i] == p5[i - p1.len() - p2.len() - p4.len()]);
            }
        }
    }
}

/// The name of a square on the board is a file letter 'a'..'h' and a rank digit '1'..'8',
/// neither of them 'x'.
proof fn lemma_name_chars(s: int)
    requires
        valid_square(s),
    ensures
        square_name(s).len() == 2,
        square_name(s)[0] != 'x',
        square_name(s)[1] != 'x',
        file_char(file_of(s)) != 'x',
{
    let f = file_of(s);
    let r = rank_of(s);
    assert(0 <= f < 8 && 0 <= r < 8);
    assert((97 + f) as char as int == 97 + f);
    assert((49 + r) as char as int == 49 + r);
}

/// The move that stands for "no move".
pub open spec fn no_move() -> ChessMove {
    ChessMove {
        start: 0,
        end: 0,
        move_piece: ColoredPieceType::Empty,
        captured_piece: ColoredPieceType::Empty,
        promotion_piece: ColoredPieceType::Empty,
    }
}

/// Both squares of the move are on the board.
pub open spec fn on_board(m: ChessMove) -> bool {
    valid_square(m.start as int) && valid_square(m.end as int)
}

pub open spec fn is_direct_capture_spec(m: ChessMove) -> bool {
    m.captured_piece != ColoredPieceType::Empty
}

/// A pawn that changes file without taking a piece on its target square takes en passant.
pub open spec fn is_en_passant_spec(m: ChessMove) -> bool {
    piece_type_of(m.move_piece) == PieceType::Pawn && m.captured_piece == ColoredPieceType::Empty
        && file_of(m.end as int) != file_of(m.start as int)
}

pub open spec fn is_promotion_spec(m: ChessMove) -> bool {
    m.promotion_piece != ColoredPieceType::Empty
}

/// A king that moves two files towards the a-file castles long.
pub open spec fn is_long_castle_spec(m: ChessMove) -> bool {
    piece_type_of(m.move_piece) == PieceType::King && file_of(m.start as int) == 2 + file_of(m.end as int)
}

/// A king that moves two files towards the h-file castles short.
pub open spec fn is_short_castle_spec(m: ChessMove) -> bool {
    piece_type_of(m.move_piece) == PieceType::King && file_of(m.start as int) + 2 == file_of(m.end as int)
}

pub open spec fn is_castle_spec(m: ChessMove) -> bool {
    is_long_castle_spec(m) || is_short_castle_spec(m)
}

/// The long text of a move: the piece letter, the start square, 'x' and the taken piece's
/// letter for a capture or '-' otherwise, the end square, and the new piece's letter for a
/// promotion.
pub open spec fn move_text(m: ChessMove) -> Seq<char> {
    seq![piece_char(m.move_piece)] + square_name(m.start as int) + (if is_direct_capture_spec(m) {
        seq!['x', piece_char(m.captured_piece)]
    } else {
        seq!['-']
    }) + square_name(m.end as int) + (if is_promotion_spec(m) {
        seq![piece_char(m.promotion_piece)]
    } else {
        Seq::<char>::empty()
    })
}

/// Another move of `list` takes the same kind of piece to the same square from elsewhere.
pub open spec fn has_rival(m: ChessMove, list: Seq<ChessMove>) -> bool {
    exists|i: int|
        0 <= i < list.len() && #[trigger] list[i].start != m.start && list[i].move_piece == m.move_piece && list[i].end
            == m.end
}

/// The short algebraic notation of `m` among the moves `list`: "O-O" or "O-O-O" for a
/// castling; else the piece's letter (for a pawn its file, and only when it takes), the start
/// square where another such piece could go to the same square, 'x' for a capture, the end
/// square, and the new piece's letter for a promotion.
pub open spec fn san_text(m: ChessMove, list: Seq<ChessMove>) -> Seq<char> {
    let pawn = piece_type_of(m.move_piece) == PieceType::Pawn;
    let capture = is_direct_capture_spec(m) || is_en_passant_spec(m);
    if is_short_castle_spec(m) {
        seq!['O', '-', 'O']
    } else if is_long_castle_spec(m) {
        seq!['O', '-', 'O', '-', 'O']
    } else {
        (if pawn {
            if capture { seq![file_char(file_of(m.start as int))] } else { Seq::<char>::empty() }
        } else {
            seq![piece_char(colored_piece(piece_type_of(m.move_piece), PlayerColor::White))]
        }) + (if has_rival(m, list) && !pawn { square_name(m.start as int) } else { Seq::<char>::empty() })
            + (if capture { seq!['x'] } else { Seq::<char>::empty() }) + square_name(m.end as int) + (if is_promotion_spec(m) {
            seq![piece_char(m.promotion_piece)]
        } else {
            Seq::<char>::empty()
        })
    }
}

/// The move that stands for "no move".
pub fn null_move() -> (r: ChessMove)
    ensures
        r == no_move(),
{
    ChessMove {
        start: 0,
        end: 0,
        move_piece: ColoredPieceType::Empty,
        captured_piece: ColoredPieceType::Empty,
        promotion_piece: ColoredPieceType::Empty,
    }
}

impl Default for ChessMove {
    fn default() -> (r: Self)
        ensures
            r == no_move(),
    {
        null_move()
    }
}

impl ChessMove {
    pub open spec fn spec_new(start: i8, end: i8, move_piece: ColoredPieceType, captured_piece: ColoredPieceType) -> ChessMove {
        ChessMove { start, end, move_piece, captured_piece, promotion_piece: ColoredPieceType::Empty }
    }

    pub fn new(start: i8, end: i8, move_piece: ColoredPieceType, captured_piece: ColoredPieceType) -> (r: ChessMove)
        requires
            move_piece != ColoredPieceType::Empty,
        ensures
            r == ChessMove::spec_new(start, end, move_piece, captured_piece),
    {
        ChessMove { start, end, move_piece, captured_piece, promotion_piece: ColoredPieceType::Empty }
    }

    pub fn new_pawn(
        start: i8,
        end: i8,
        move_piece: ColoredPieceType,
        captured_piece: ColoredPieceType,
        promotion_piece: ColoredPieceType,
    ) -> (r: ChessMove)
        ensures
            r == (ChessMove { start, end, move_piece, captured_piece, promotion_piece }),
    {
        ChessMove { start, end, move_piece, captured_piece, promotion_piece }
    }

    pub fn is_direct_capture(&self) -> (r: bool)
        ensures
            r == is_direct_capture_spec(*self),
    {
        self.captured_piece != ColoredPieceType::Empty
    }

    pub fn is_en_passant(&self) -> (r: bool)
        requires
            on_board(*self),
        ensures
            r == is_en_passant_spec(*self),
    {
        self.move_piece.is_pawn() && self.captured_piece.is_none() && self.end.file() != self.start.file()
    }

    pub fn is_capture(&self) -> (r: bool)
        requires
            on_board(*self),
        ensures
            r == (is_direct_capture_spec(*self) || is_en_passant_spec(*self)),
    {
        self.is_direct_capture() || self.is_en_passant()
    }

    pub fn is_promotion(&self) -> (r: bool)
        ensures
            r == is_promotion_spec(*self),
    {
        self.promotion_piece != ColoredPieceType::Empty
    }

    pub fn is_long_castle(&self) -> (r: bool)
        requires
            on_board(*self),
        ensures
            r == is_long_castle_spec(*self),
    {
        self.move_piece.is_king() && self.start.file() == 2 + self.end.file()
    }

    pub fn is_short_castle(&self) -> (r: bool)
        requires
            on_board(*self),
        ensures
            r == is_short_castle_spec(*self),
    {
        self.move_piece.is_king() && self.start.file() + 2 == self.end.file()
    }

    pub fn is_castle(&self) -> (r: bool)
        requires
            on_board(*self),
        ensures
            r == is_castle_spec(*self),
    {
        let diff = self.start.file() - self.end.file();
        self.move_piece.is_king() && (diff == 2 || diff == -2)
    }

    pub fn uci_move(&self) -> (r: UciMove)
        ensures
            r == (UciMove { start: self.start, end: self.end, promotion_piece: piece_type_of(self.promotion_piece) }),
    {
        UciMove { start: self.start, end: self.end, promotion_piece: self.promotion_piece.piece_type() }
    }

    /// The move in short algebraic notation, among the moves `move_list` (which tell whether
    /// the start square is needed to tell it apart).
    pub fn san_move(&self, move_list: &MoveVector) -> (r: String)
        requires
            on_board(*self),
        ensures
            r@ == san_text(*self, move_items(*move_list)),
    {
        if self.is_short_castle() {
            let mut s = String::new();
            push_char(&mut s, 'O');
            push_char(&mut s, '-');
            push_char(&mut s, 'O');
            assert(s@ =~= san_text(*self, move_items(*move_list)));
            return s;
        }
        if self.is_long_castle() {
            let mut s = String::new();
            push_char(&mut s, 'O');
            push_char(&mut s, '-');
            push_char(&mut s, 'O');
            push_char(&mut s, '-');
            push_char(&mut s, 'O');
            assert(s@ =~= san_text(*self, move_items(*move_list)));
            return s;
        }
        let ghost list = move_items(*move_list);
        let is_pawn = self.move_piece.is_pawn();
        let capture = self.is_capture();
        let mut s = String::new();
        if is_pawn {
            if capture {
                push_char(&mut s, file_name(self.start.file()));
            }
        } else {
            push_char(&mut s, self.move_piece.white().to_char());
        }
        let ghost name = s@;

        //Disambiguation
        let n = move_count(move_list);
        let mut same_target = false;
        let mut i: usize = 0;
        while i < n
            invariant
                n == list.len(),
                list == move_items(*move_list),
                i <= n,
                same_target == exists|j: int|
                    0 <= j < i && #[trigger] list[j].start != self.start && list[j].move_piece == self.move_piece
                        && list[j].end == self.end,
            decreases n - i,
        {
            let m = move_at(move_list, i);
            if m.start != self.start && m.move_piece == self.move_piece && m.end == self.end {
                same_target = true;
            }
            i = i + 1;
        }
        if same_target && !is_pawn {
            let start = self.start.square_string();
            s.append(start.as_str());
        }
        if capture {
            push_char(&mut s, 'x');
        }
        let end = self.end.square_string();
        s.append(end.as_str());
        if self.is_promotion() {
            push_char(&mut s, self.promotion_piece.to_char());
        }
        assert(s@ =~= san_text(*self, move_items(*move_list)));
        s
    }

    pub fn to_string(&self) -> (r: String)
        ensures
            r@ == move_text(*self),
    {
        let mut s = String::new();
        push_char(&mut s, self.move_piece.to_char());
        let start = self.start.square_string();
        s.append(start.as_str());
        if self.is_direct_capture() {
            push_char(&mut s, 'x');
        } else {
            push_char(&mut s, '-');
        }
        if self.is_direct_capture() {
            push_char(&mut s, self.captured_piece.to_char());
        }
        let end = self.end.square_string();
        s.append(end.as_str());
        if self.is_promotion() {
            push_char(&mut s, self.promotion_piece.to_char());
        }
        assert(s@ =~= move_text(*self));
        s
    }

    pub fn is_null_move(&self) -> (r: bool)
        ensures
            r == (*self == no_move()),
    {
        *self == null_move()
    }
}

} // verus!
