use vstd::prelude::*;
use crate::board::player_color::{PlayerColor, other};

verus! {

#[derive(Debug, Clone, Copy, PartialEq, Eq, Structural, PartialOrd, Ord)]
pub enum PieceType {
    Pawn,
    Knight,
    Bishop,
    Rook,
    Queen,
    King,
    Empty,
}

#[derive(Debug, Clone, Copy, PartialEq, Eq, Structural, PartialOrd, Ord)]
pub enum ColoredPieceType {
    WhitePawn,
    WhiteKnight,
    WhiteBishop,
    WhiteRook,
    WhiteQueen,
    WhiteKing,
    BlackPawn,
    BlackKnight,
    BlackBishop,
    BlackRook,
    BlackQueen,
    BlackKing,
    Empty,
}

pub const ALL_PIECE_TYPES: [PieceType; 7] = [
    PieceType::Pawn,
    PieceType::Knight,
    PieceType::Bishop,
    PieceType::Rook,
    PieceType::Queen,
    PieceType::King,
    PieceType::Empty,
];

pub const ALL_COLORED_PIECE_TYPES: [ColoredPieceType; 13] = [
    ColoredPieceType::WhitePawn,
    ColoredPieceType::WhiteKnight,
    ColoredPieceType::WhiteBishop,
    ColoredPieceType::WhiteRook,
    ColoredPieceType::WhiteQueen,
    ColoredPieceType::WhiteKing,
    ColoredPieceType::BlackPawn,
    ColoredPieceType::BlackKnight,
    ColoredPieceType::BlackBishop,
    ColoredPieceType::BlackRook,
    ColoredPieceType::BlackQueen,
    ColoredPieceType::BlackKing,
    ColoredPieceType::Empty,
];

/// The piece of type `pt` and side `c`; `Empty` stays `Empty`.
pub open spec fn colored_piece(pt: PieceType, c: PlayerColor) -> ColoredPieceType {
    match c {
        PlayerColor::White => match pt {
            PieceType::Pawn => ColoredPieceType::WhitePawn,
            PieceType::Knight => ColoredPieceType::WhiteKnight,
            PieceType::Bishop => ColoredPieceType::WhiteBishop,
            PieceType::Rook => ColoredPieceType::WhiteRook,
            PieceType::Queen => ColoredPieceType::WhiteQueen,
            PieceType::King => ColoredPieceType::WhiteKing,
            PieceType::Empty => ColoredPieceType::Empty,
        },
        PlayerColor::Black => match pt {
            PieceType::Pawn => ColoredPieceType::BlackPawn,
            PieceType::Knight => ColoredPieceType::BlackKnight,
            PieceType::Bishop => ColoredPieceType::BlackBishop,
            PieceType::Rook => ColoredPieceType::BlackRook,
            PieceType::Queen => ColoredPieceType::BlackQueen,
            PieceType::King => ColoredPieceType::BlackKing,
            PieceType::Empty => ColoredPieceType::Empty,
        },
    }
}

/// The type of a piece, without its side.
pub open spec fn piece_type_of(cpt: ColoredPieceType) -> PieceType {
    match cpt {
        ColoredPieceType::WhitePawn => PieceType::Pawn,
        ColoredPieceType::WhiteKnight => PieceType::Knight,
        ColoredPieceType::WhiteBishop => PieceType::Bishop,
        ColoredPieceType::WhiteRook => PieceType::Rook,
        ColoredPieceType::WhiteQueen => PieceType::Queen,
        ColoredPieceType::WhiteKing => PieceType::King,
        ColoredPieceType::BlackPawn => PieceType::Pawn,
        ColoredPieceType::BlackKnight => PieceType::Knight,
        ColoredPieceType::BlackBishop => PieceType::Bishop,
        ColoredPieceType::BlackRook => PieceType::Rook,
        ColoredPieceType::BlackQueen => PieceType::Queen,
        ColoredPieceType::BlackKing => PieceType::King,
        ColoredPieceType::Empty => PieceType::Empty,
    }
}

/// The side of a piece (`Empty` has no side; the value given for it means nothing).
pub open spec fn color_of(cpt: ColoredPieceType) -> PlayerColor {
    match cpt {
        ColoredPieceType::WhitePawn => PlayerColor::White,
        ColoredPieceType::WhiteKnight => PlayerColor::White,
        ColoredPieceType::WhiteBishop => PlayerColor::White,
        ColoredPieceType::WhiteRook => PlayerColor::White,
        ColoredPieceType::WhiteQueen => PlayerColor::White,
        ColoredPieceType::WhiteKing => PlayerColor::White,
        _ => PlayerColor::Black,
    }
}

/// The FEN letter of a piece: upper case for white, lower case for black, '.' for none.
pub open spec fn piece_char(cpt: ColoredPieceType) -> char {
    match cpt {
        ColoredPieceType::WhitePawn => 'P',
        ColoredPieceType::WhiteKnight => 'N',
        ColoredPieceType::WhiteBishop => 'B',
        ColoredPieceType::WhiteRook => 'R',
        ColoredPieceType::WhiteQueen => 'Q',
        ColoredPieceType::WhiteKing => 'K',
        ColoredPieceType::BlackPawn => 'p',
        ColoredPieceType::BlackKnight => 'n',
        ColoredPieceType::BlackBishop => 'b',
        ColoredPieceType::BlackRook => 'r',
        ColoredPieceType::BlackQueen => 'q',
        ColoredPieceType::BlackKing => 'k',
        ColoredPieceType::Empty => '.',
    }
}

/// The piece that a FEN letter stands for; any other character stands for none.
pub open spec fn piece_of_char(c: char) -> ColoredPieceType {
    if c == 'P' {
        ColoredPieceType::WhitePawn
    } else     if c == 'N' {
        ColoredPieceType::WhiteKnight
    } else     if c == 'B' {
        ColoredPieceType::WhiteBishop
    } else     if c == 'R' {
        ColoredPieceType::WhiteRook
    } else     if c == 'Q' {
        ColoredPieceType::WhiteQueen
    } else     if c == 'K' {
        ColoredPieceType::WhiteKing
    } else if c == 'p' {
        ColoredPieceType::BlackPawn
    } else if c == 'n' {
        ColoredPieceType::BlackKnight
    } else if c == 'b' {
        ColoredPieceType::BlackBishop
    } else if c == 'r' {
        ColoredPieceType::BlackRook
    } else if c == 'q' {
        ColoredPieceType::BlackQueen
    } else if c == 'k' {
        ColoredPieceType::BlackKing
    } else {
        ColoredPieceType::Empty
    }
}

/// The chess symbol that shows a piece.
pub open spec fn piece_symbol(cpt: ColoredPieceType) -> Seq<char> {
    match cpt {
        ColoredPieceType::WhitePawn => seq!['♟'],
        ColoredPieceType::WhiteKnight => seq!['♞'],
        ColoredPieceType::WhiteBishop => seq!['♝'],
        ColoredPieceType::WhiteRook => seq!['♜'],
        ColoredPieceType::WhiteQueen => seq!['♛'],
        ColoredPieceType::WhiteKing => seq!['♚'],
        ColoredPieceType::BlackPawn => seq!['♙'],
        ColoredPieceType::BlackKnight => seq!['♘'],
        ColoredPieceType::BlackBishop => seq!['♗'],
        ColoredPieceType::BlackRook => seq!['♖'],
        ColoredPieceType::BlackQueen => seq!['♕'],
        ColoredPieceType::BlackKing => seq!['♔'],
        ColoredPieceType::Empty => seq![' '],
    }
}

pub open spec fn is_orthogonal_slider_type(pt: PieceType) -> bool {
    pt == PieceType::Rook || pt == PieceType::Queen
}

pub open spec fn is_diagonal_slider_type(pt: PieceType) -> bool {
    pt == PieceType::Bishop || pt == PieceType::Queen
}

impl PieceType {
    pub fn colored(self, color: PlayerColor) -> (r: ColoredPieceType)
        ensures
            r == colored_piece(self, color),
    {
        match color {
            PlayerColor::White => match self {
                PieceType::Pawn => ColoredPieceType::WhitePawn,
                PieceType::Knight => ColoredPieceType::WhiteKnight,
                PieceType::Bishop => ColoredPieceType::WhiteBishop,
                PieceType::Rook => ColoredPieceType::WhiteRook,
                PieceType::Queen => ColoredPieceType::WhiteQueen,
                PieceType::King => ColoredPieceType::WhiteKing,
                PieceType::Empty => ColoredPieceType::Empty,
            },
            PlayerColor::Black => match self {
                PieceType::Pawn => ColoredPieceType::BlackPawn,
                PieceType::Knight => ColoredPieceType::BlackKnight,
                PieceType::Bishop => ColoredPieceType::BlackBishop,
                PieceType::Rook => ColoredPieceType::BlackRook,
                PieceType::Queen => ColoredPieceType::BlackQueen,
                PieceType::King => ColoredPieceType::BlackKing,
                PieceType::Empty => ColoredPieceType::Empty,
            },
        }
    }

    pub fn is_orthogonal_slider(&self) -> (r: bool)
        ensures
            r == is_orthogonal_slider_type(*self),
    {
        match self {
            PieceType::Rook | PieceType::Queen => true,
            _ => false,
        }
    }

    pub fn is_diagonal_slider(&self) -> (r: bool)
        ensures
            r == is_diagonal_slider_type(*self),
    {
        match self {
            PieceType::Bishop | PieceType::Queen => true,
            _ => false,
        }
    }

    pub fn is_slider(&self) -> (r: bool)
        ensures
            r == (is_orthogonal_slider_type(*self) || is_diagonal_slider_type(*self)),
    {
        self.is_orthogonal_slider() || self.is_diagonal_slider()
    }
}

impl ColoredPieceType {
    pub fn from_char(c: char) -> (r: ColoredPieceType)
        ensures
            r == piece_of_char(c),
    {
        match c {
            'P' => ColoredPieceType::WhitePawn,
            'N' => ColoredPieceType::WhiteKnight,
            'B' => ColoredPieceType::WhiteBishop,
            'R' => ColoredPieceType::WhiteRook,
            'Q' => ColoredPieceType::WhiteQueen,
            'K' => ColoredPieceType::WhiteKing,
            'p' => ColoredPieceType::BlackPawn,
            'n' => ColoredPieceType::BlackKnight,
            'b' => ColoredPieceType::BlackBishop,
            'r' => ColoredPieceType::BlackRook,
            'q' => ColoredPieceType::BlackQueen,
            'k' => ColoredPieceType::BlackKing,
            _ => ColoredPieceType::Empty,
        }
    }

    pub fn to_char(&self) -> (r: char)
        ensures
            r == piece_char(*self),
    {
        match self {
            ColoredPieceType::WhitePawn => 'P',
            ColoredPieceType::WhiteKnight => 'N',
            ColoredPieceType::WhiteBishop => 'B',
            ColoredPieceType::WhiteRook => 'R',
            ColoredPieceType::WhiteQueen => 'Q',
            ColoredPieceType::WhiteKing => 'K',
            ColoredPieceType::BlackPawn => 'p',
            ColoredPieceType::BlackKnight => 'n',
            ColoredPieceType::BlackBishop => 'b',
            ColoredPieceType::BlackRook => 'r',
            ColoredPieceType::BlackQueen => 'q',
            ColoredPieceType::BlackKing => 'k',
            ColoredPieceType::Empty => '.',
        }
    }

    pub fn to_symbol(&self) -> (r: &'static str)
        ensures
            r@ == piece_symbol(*self),
    {
        match self {
            ColoredPieceType::WhitePawn => {
                proof {
                    reveal_strlit("♟");
                }
                "♟"
            },
            ColoredPieceType::WhiteKnight => {
                proof {
                    reveal_strlit("♞");
                }
                "♞"
            },
            ColoredPieceType::WhiteBishop => {
                proof {
                    reveal_strlit("♝");
                }
                "♝"
            },
            ColoredPieceType::WhiteRook => {
                proof {
                    reveal_strlit("♜");
                }
                "♜"
            },
            ColoredPieceType::WhiteQueen => {
                proof {
                    reveal_strlit("♛");
                }
                "♛"
            },
            ColoredPieceType::WhiteKing => {
                proof {
                    reveal_strlit("♚");
                }
                "♚"
            },
            ColoredPieceType::BlackPawn => {
                proof {
                    reveal_strlit("♙");
                }
                "♙"
            },
            ColoredPieceType::BlackKnight => {
                proof {
                    reveal_strlit("♘");
                }
                "♘"
            },
            ColoredPieceType::BlackBishop => {
                proof {
                    reveal_strlit("♗");
                }
                "♗"
            },
            ColoredPieceType::BlackRook => {
                proof {
                    reveal_strlit("♖");
                }
                "♖"
            },
            ColoredPieceType::BlackQueen => {
                proof {
                    reveal_strlit("♕");
                }
                "♕"
            },
            ColoredPieceType::BlackKing => {
                proof {
                    reveal_strlit("♔");
                }
                "♔"
            },
            ColoredPieceType::Empty => {
                proof {
                    reveal_strlit(" ");
                }
                " "
            },
        }
    }

    pub fn piece_type(&self) -> (r: PieceType)
        ensures
            r == piece_type_of(*self),
    {
        match self {
            ColoredPieceType::WhitePawn => PieceType::Pawn,
            ColoredPieceType::WhiteKnight => PieceType::Knight,
            ColoredPieceType::WhiteBishop => PieceType::Bishop,
            ColoredPieceType::WhiteRook => PieceType::Rook,
            ColoredPieceType::WhiteQueen => PieceType::Queen,
            ColoredPieceType::WhiteKing => PieceType::King,
            ColoredPieceType::BlackPawn => PieceType::Pawn,
            ColoredPieceType::BlackKnight => PieceType::Knight,
            ColoredPieceType::BlackBishop => PieceType::Bishop,
            ColoredPieceType::BlackRook => PieceType::Rook,
            ColoredPieceType::BlackQueen => PieceType::Queen,
            ColoredPieceType::BlackKing => PieceType::King,
            ColoredPieceType::Empty => PieceType::Empty,
        }
    }

    pub fn opposite(&self) -> (r: ColoredPieceType)
        requires
            *self != ColoredPieceType::Empty,
        ensures
            r == colored_piece(piece_type_of(*self), other(color_of(*self))),
    {
        self.piece_type().colored(core::ops::Not::not(self.color()))
    }

    pub fn black(&self) -> (r: ColoredPieceType)
        ensures
            r == colored_piece(piece_type_of(*self), PlayerColor::Black),
    {
        if *self == ColoredPieceType::Empty {
            return ColoredPieceType::Empty;
        }
        self.piece_type().colored(PlayerColor::Black)
    }

    pub fn white(&self) -> (r: ColoredPieceType)
        ensures
            r == colored_piece(piece_type_of(*self), PlayerColor::White),
    {
        if *self == ColoredPieceType::Empty {
            return ColoredPieceType::Empty;
        }
        self.piece_type().colored(PlayerColor::White)
    }

    pub fn color(&self) -> (r: PlayerColor)
        requires
            *self != ColoredPieceType::Empty,
        ensures
            r == color_of(*self),
    {
        match self {
            ColoredPieceType::WhitePawn => PlayerColor::White,
            ColoredPieceType::WhiteKnight => PlayerColor::White,
            ColoredPieceType::WhiteBishop => PlayerColor::White,
            ColoredPieceType::WhiteRook => PlayerColor::White,
            ColoredPieceType::WhiteQueen => PlayerColor::White,
            ColoredPieceType::WhiteKing => PlayerColor::White,
            _ => PlayerColor::Black,
        }
    }

    pub fn is_none(&self) -> (r: bool)
        ensures
            r == (*self == ColoredPieceType::Empty),
    {
        *self == ColoredPieceType::Empty
    }

    pub fn is_pawn(&self) -> (r: bool)
        ensures
            r == (piece_type_of(*self) == PieceType::Pawn),
    {
        match self {
            ColoredPieceType::WhitePawn | ColoredPieceType::BlackPawn => true,
            _ => false,
        }
    }

    pub fn is_knight(&self) -> (r: bool)
        ensures
            r == (piece_type_of(*self) == PieceType::Knight),
    {
        match self {
            ColoredPieceType::WhiteKnight | ColoredPieceType::BlackKnight => true,
            _ => false,
        }
    }

    pub fn is_bishop(&self) -> (r: bool)
        ensures
            r == (piece_type_of(*self) == PieceType::Bishop),
    {
        match self {
            ColoredPieceType::WhiteBishop | ColoredPieceType::BlackBishop => true,
            _ => false,
        }
    }

    pub fn is_rook(&self) -> (r: bool)
        ensures
            r == (piece_type_of(*self) == PieceType::Rook),
    {
        match self {
            ColoredPieceType::WhiteRook | ColoredPieceType::BlackRook => true,
            _ => false,
        }
    }

    pub fn is_queen(&self) -> (r: bool)
        ensures
            r == (piece_type_of(*self) == PieceType::Queen),
    {
        match self {
            ColoredPieceType::WhiteQueen | ColoredPieceType::BlackQueen => true,
            _ => false,
        }
    }

    pub fn is_king(&self) -> (r: bool)
        ensures
            r == (piece_type_of(*self) == PieceType::King),
    {
        match self {
            ColoredPieceType::WhiteKing | ColoredPieceType::BlackKing => true,
            _ => false,
        }
    }

    pub fn is_orthogonal_slider(&self) -> (r: bool)
        ensures
            r == is_orthogonal_slider_type(piece_type_of(*self)),
    {
        self.piece_type().is_orthogonal_slider()
    }

    pub fn is_diagonal_slider(&self) -> (r: bool)
        ensures
            r == is_diagonal_slider_type(piece_type_of(*self)),
    {
        self.piece_type().is_diagonal_slider()
    }

    pub fn is_slider(&self) -> (r: bool)
        ensures
            r == (is_orthogonal_slider_type(piece_type_of(*self)) || is_diagonal_slider_type(piece_type_of(*self))),
    {
        self.piece_type().is_slider()
    }
}

/// A piece is its type and its side: taking them apart and putting them together again
/// gives the same piece, and the letter of a piece reads back as that piece.
pub proof fn law_colored_piece_roundtrip(pt: PieceType, c: PlayerColor, cpt: ColoredPieceType)
    ensures
        pt != PieceType::Empty ==> piece_type_of(colored_piece(pt, c)) == pt && color_of(colored_piece(pt, c)) == c,
        cpt != ColoredPieceType::Empty ==> colored_piece(piece_type_of(cpt), color_of(cpt)) == cpt,
        piece_of_char(piece_char(cpt)) == cpt,
{
}

/// The opposite of the opposite of a piece is the piece.
pub proof fn law_opposite_involutive(cpt: ColoredPieceType)
    requires
        cpt != ColoredPieceType::Empty,
    ensures
        colored_piece(piece_type_of(colored_piece(piece_type_of(cpt), other(color_of(cpt)))), other(color_of(colored_piece(piece_type_of(cpt), other(color_of(cpt)))))) == cpt,
{
}

} // verus!
