use vstd::prelude::*;

verus! {

#[derive(Debug, Clone, Copy, PartialEq, Eq, Structural, PartialOrd, Ord)]
pub enum Color {
    White,
    Black,
}

pub const ALL_COLORS: [Color; 2] = [Color::White, Color::Black];

/// The other side.
pub open spec fn other_color(c: Color) -> Color {
    match c {
        Color::White => Color::Black,
        Color::Black => Color::White,
    }
}

impl Color {
    pub fn new(is_white: bool) -> (c: Color)
        ensures
            c == (if is_white {
                Color::White
            } else {
                Color::Black
            }),
    {
        if is_white {
            Color::White
        } else {
            Color::Black
        }
    }

    pub fn is_white(&self) -> (r: bool)
        ensures
            r == (*self == Color::White),
    {
        *self == Color::White
    }

    pub fn is_black(&self) -> (r: bool)
        ensures
            r == (*self == Color::Black),
    {
        *self == Color::Black
    }
}

impl core::ops::Not for Color {
    type Output = Color;

    fn not(self) -> (r: Color)
        ensures
            r == other_color(self),
    {
        match self {
            Color::White => Color::Black,
            Color::Black => Color::White,
        }
    }
}

impl vstd::std_specs::ops::NotSpecImpl for Color {
    open spec fn obeys_not_spec() -> bool {
        true
    }

    open spec fn not_req(self) -> bool {
        true
    }

    open spec fn not_spec(self) -> Color {
        other_color(self)
    }
}

/// Switching sides twice gives the side back.
pub proof fn law_other_color_involutive(c: Color)
    ensures
        other_color(other_color(c)) == c,
        other_color(c) != c,
{
}

} // verus!
