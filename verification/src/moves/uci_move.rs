use vstd::prelude::*;
use crate::board::piece_type::{ColoredPieceType, PieceType, colored_piece, piece_char, piece_of_char, piece_type_of};
use crate::board::player_color::PlayerColor;
use crate::board::square::{self, Square, names_square, named_square, square_name};
use crate::text::push_char;

verus! {

#[derive(Debug, Clone, Copy, PartialEq, Eq, Structural)]
pub struct UciMove {
    pub start: i8,
    pub end: i8,
    pub promotion_piece: PieceType,
}

/// Whether `s` is a move in UCI notation: two square names, then an optional promotion letter.
pub open spec fn is_uci_text(s: Seq<char>) -> bool {
    names_square(s) && names_square(s.skip(2))
}

/// The move that UCI text `s` stands for.
pub open spec fn uci_of_text(s: Seq<char>) -> UciMove {
    UciMove {
        start: named_square(s) as i8,
        end: named_square(s.skip(2)) as i8,
        promotion_piece: if s.len() == 5 {
            piece_type_of(piece_of_char(s[4]))
        } else {
            PieceType::Empty
        },
    }
}

/// The UCI text of a move: start square, end square and, for a promotion, the lower case letter
/// of the new piece.
pub open spec fn uci_text(m: UciMove) -> Seq<char> {
    square_name(m.start as int) + square_name(m.end as int) + if m.promotion_piece != PieceType::Empty {
        seq![piece_char(colored_piece(m.promotion_piece, PlayerColor::Black))]
    } else {
        Seq::<char>::empty()
    }
}

impl UciMove {
    pub fn new(start: i8, end: i8, promotion_piece: PieceType) -> (r: UciMove)
        ensures
            r == (UciMove { start, end, promotion_piece }),
    {
        UciMove { start, end, promotion_piece }
    }

    pub fn from_str(s: &str) -> (r: UciMove)
        requires
            is_uci_text(s@),
        ensures
            r == uci_of_text(s@),
    {
        let start = square::from_file_rank(square::parse_file(s.get_char(0)), square::parse_rank(s.get_char(1)));
        let end = square::from_file_rank(square::parse_file(s.get_char(2)), square::parse_rank(s.get_char(3)));
        let promotion_piece = if s.unicode_len() == 5 {
            ColoredPieceType::from_char(s.get_char(4))
        } else {
            ColoredPieceType::Empty
        }.piece_type();
        UciMove { start, end, promotion_piece }
    }

    pub fn to_string(&self) -> (r: String)
        ensures
            r@ == uci_text(*self),
    {
        let start = self.start.square_string();
        let end = self.end.square_string();
        let mut s = start;
        s.append(end.as_str());
        if self.promotion_piece != PieceType::Empty {
            push_char(&mut s, self.promotion_piece.colored(PlayerColor::Black).to_char());
        }
        proof {
            if self.promotion_piece == PieceType::Empty {
                assert(s@ =~= uci_text(*self));
            } else {
                assert(s@ =~= uci_text(*self));
            }
        }
        s
    }
}

/// Reading the UCI text of a move between two squares gives the move back.
pub proof fn law_uci_roundtrip(m: UciMove)
    requires
        0 <= m.start < 64,
        0 <= m.end < 64,
    ensures
        is_uci_text(uci_text(m)),
        uci_of_text(uci_text(m)) == m,
{
    let t = uci_text(m);
    let a = square_name(m.start as int);
    let b = square_name(m.end as int);
    let p: Seq<char> = if m.promotion_piece != PieceType::Empty {
        seq![piece_char(colored_piece(m.promotion_piece, PlayerColor::Black))]
    } else {
        Seq::<char>::empty()
    };
    assert(t == a + b + p);
    assert(t.skip(2) =~= b + p);
    crate::board::square::law_file_rank_roundtrip(m.start as int);
    crate::board::square::law_file_rank_roundtrip(m.end as int);
    if m.promotion_piece != PieceType::Empty {
        assert(t[4] == piece_char(colored_piece(m.promotion_piece, PlayerColor::Black)));
    }
}

} // verus!
