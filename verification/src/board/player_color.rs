use vstd::prelude::*;
use crate::text::push_char;

verus! {

#[derive(Debug, Clone, Copy, PartialEq, Eq, Structural, PartialOrd, Ord)]
pub enum PlayerColor {
    White,
    Black,
}

pub const ALL_COLORS: [PlayerColor; 2] = [PlayerColor::White, PlayerColor::Black];

/// The other side.
pub open spec fn other(c: PlayerColor) -> PlayerColor {
    match c {
        PlayerColor::White => PlayerColor::Black,
        PlayerColor::Black => PlayerColor::White,
    }
}

impl PlayerColor {
    pub fn new(is_white: bool) -> (c: PlayerColor)
        ensures
            c == (if is_white {
                PlayerColor::White
            } else {
                PlayerColor::Black
            }),
    {
        if is_white {
            PlayerColor::White
        } else {
            PlayerColor::Black
        }
    }

    pub fn is_white(&self) -> (r: bool)
        ensures
            r == (*self == PlayerColor::White),
    {
        *self == PlayerColor::White
    }

    pub fn is_black(&self) -> (r: bool)
        ensures
            r == (*self == PlayerColor::Black),
    {
        *self == PlayerColor::Black
    }

    /// The FEN name of the side: "w" or "b".
    pub fn to_string(&self) -> (r: String)
        ensures
            r@ == seq![
                if *self == PlayerColor::White {
                    'w'
                } else {
                    'b'
                },
            ],
    {
        let mut s = String::new();
        match self {
            PlayerColor::White => push_char(&mut s, 'w'),
            PlayerColor::Black => push_char(&mut s, 'b'),
        }
        s
    }
}

impl core::ops::Not for PlayerColor {
    type Output = PlayerColor;

    fn not(self) -> (r: PlayerColor)
        ensures
            r == other(self),
    {
        match self {
            PlayerColor::White => PlayerColor::Black,
            PlayerColor::Black => PlayerColor::White,
        }
    }
}

impl vstd::std_specs::ops::NotSpecImpl for PlayerColor {
    open spec fn obeys_not_spec() -> bool {
        true
    }

    open spec fn not_req(self) -> bool {
        true
    }

    open spec fn not_spec(self) -> PlayerColor {
        other(self)
    }
}

/// Switching sides twice gives the side back.
pub proof fn law_other_involutive(c: PlayerColor)
    ensures
        other(other(c)) == c,
        other(c) != c,
{
}

} // verus!
