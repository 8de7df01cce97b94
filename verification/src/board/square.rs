use vstd::prelude::*;
use crate::board::bit_array::bit;
use crate::text::push_char;

verus! {

pub const A1: i8 = 0;
pub const B1: i8 = 1;
pub const C1: i8 = 2;
pub const D1: i8 = 3;
pub const E1: i8 = 4;
pub const F1: i8 = 5;
pub const G1: i8 = 6;
pub const H1: i8 = 7;
pub const A2: i8 = 8;
pub const B2: i8 = 9;
pub const C2: i8 = 10;
pub const D2: i8 = 11;
pub const E2: i8 = 12;
pub const F2: i8 = 13;
pub const G2: i8 = 14;
pub const H2: i8 = 15;
pub const A3: i8 = 16;
pub const B3: i8 = 17;
pub const C3: i8 = 18;
pub const D3: i8 = 19;
pub const E3: i8 = 20;
pub const F3: i8 = 21;
pub const G3: i8 = 22;
pub const H3: i8 = 23;
pub const A4: i8 = 24;
pub const B4: i8 = 25;
pub const C4: i8 = 26;
pub const D4: i8 = 27;
pub const E4: i8 = 28;
pub const F4: i8 = 29;
pub const G4: i8 = 30;
pub const H4: i8 = 31;
pub const A5: i8 = 32;
pub const B5: i8 = 33;
pub const C5: i8 = 34;
pub const D5: i8 = 35;
pub const E5: i8 = 36;
pub const F5: i8 = 37;
pub const G5: i8 = 38;
pub const H5: i8 = 39;
pub const A6: i8 = 40;
pub const B6: i8 = 41;
pub const C6: i8 = 42;
pub const D6: i8 = 43;
pub const E6: i8 = 44;
pub const F6: i8 = 45;
pub const G6: i8 = 46;
pub const H6: i8 = 47;
pub const A7: i8 = 48;
pub const B7: i8 = 49;
pub const C7: i8 = 50;
pub const D7: i8 = 51;
pub const E7: i8 = 52;
pub const F7: i8 = 53;
pub const G7: i8 = 54;
pub const H7: i8 = 55;
pub const A8: i8 = 56;
pub const B8: i8 = 57;
pub const C8: i8 = 58;
pub const D8: i8 = 59;
pub const E8: i8 = 60;
pub const F8: i8 = 61;
pub const G8: i8 = 62;
pub const H8: i8 = 63;

/// The value that stands for "no square" (for instance, no en passant square).
pub const NONE: i8 = 64;

pub const EN_PASSANT_SQUARES: [i8; 16] = [
    A3, B3, C3, D3, E3, F3, G3, H3,
    A6, B6, C6, D6, E6, F6, G6, H6,
];

pub open spec fn valid_square(s: int) -> bool {
    0 <= s < 64
}

/// File (column) of a square: 0 = a .. 7 = h.
pub open spec fn file_of(s: int) -> int {
    s % 8
}

/// Rank (row) of a square: 0 = rank 1 .. 7 = rank 8.
pub open spec fn rank_of(s: int) -> int {
    s / 8
}

pub open spec fn square_at(file: int, rank: int) -> int {
    file + 8 * rank
}

/// The character that names a file: 'a' .. 'h'.
pub open spec fn file_char(file: int) -> char {
    (97 + file) as char
}

/// The character that names a rank: '1' .. '8'.
pub open spec fn rank_char(rank: int) -> char {
    (49 + rank) as char
}

/// The algebraic name of a square ("e4"), or "None" for a value off the board.
pub open spec fn square_name(s: int) -> Seq<char> {
    if valid_square(s) {
        seq![file_char(file_of(s)), rank_char(rank_of(s))]
    } else {
        seq!['N', 'o', 'n', 'e']
    }
}

/// A square is given back by its file and rank.
pub proof fn law_file_rank_roundtrip(s: int)
    requires
        valid_square(s),
    ensures
        0 <= file_of(s) < 8,
        0 <= rank_of(s) < 8,
        s == square_at(file_of(s), rank_of(s)),
{
}

pub fn from_file_rank(file: i8, rank: i8) -> (s: i8)
    requires
        0 <= file < 8,
        0 <= rank < 8,
    ensures
        s == square_at(file as int, rank as int),
        file_of(s as int) == file,
        rank_of(s as int) == rank,
{
    assert(0 <= file < 8 && 0 <= rank < 8 ==> file | (rank << 3) == file + 8 * rank) by (bit_vector);
    file | (rank << 3)
}

/// Whether `c` names a file ('a' .. 'h').
pub open spec fn is_file_char(c: char) -> bool {
    'a' <= c <= 'h'
}

/// Whether `c` names a rank ('1' .. '8').
pub open spec fn is_rank_char(c: char) -> bool {
    '1' <= c <= '8'
}

/// Whether the first two characters of `s` name a square.
pub open spec fn names_square(s: Seq<char>) -> bool {
    s.len() >= 2 && is_file_char(s[0]) && is_rank_char(s[1])
}

/// The square named by the first two characters of `s`.
pub open spec fn named_square(s: Seq<char>) -> int {
    square_at(s[0] as int - 97, s[1] as int - 49)
}

/// Reads a square from its algebraic name ("e4"); the first two characters count.
pub fn from_str(s: &str) -> (square: i8)
    requires
        names_square(s@),
    ensures
        square == named_square(s@),
{
    let file_c = s.get_char(0);
    let rank_c = s.get_char(1);
    let file = parse_file(file_c);
    let rank = parse_rank(rank_c);
    from_file_rank(file, rank)
}

pub fn parse_file(c: char) -> (file: i8)
    requires
        is_file_char(c),
    ensures
        file == c as int - 97,
{
    match c {
        'a' => 0,
        'b' => 1,
        'c' => 2,
        'd' => 3,
        'e' => 4,
        'f' => 5,
        'g' => 6,
        _ => 7,
    }
}

pub fn parse_rank(c: char) -> (rank: i8)
    requires
        is_rank_char(c),
    ensures
        rank == c as int - 49,
{
    match c {
        '1' => 0,
        '2' => 1,
        '3' => 2,
        '4' => 3,
        '5' => 4,
        '6' => 5,
        '7' => 6,
        _ => 7,
    }
}

pub fn file_name(file: i8) -> (c: char)
    requires
        0 <= file < 8,
    ensures
        c == file_char(file as int),
{
    match file {
        0 => 'a',
        1 => 'b',
        2 => 'c',
        3 => 'd',
        4 => 'e',
        5 => 'f',
        6 => 'g',
        _ => 'h',
    }
}

pub fn rank_name(rank: i8) -> (c: char)
    requires
        0 <= rank < 8,
    ensures
        c == rank_char(rank as int),
{
    match rank {
        0 => '1',
        1 => '2',
        2 => '3',
        3 => '4',
        4 => '5',
        5 => '6',
        6 => '7',
        _ => '8',
    }
}

/// Squares are `i8` values: 0 = a1, 1 = b1, .. 63 = h8.
pub trait Square: Sized {
    spec fn index(self) -> int;

    fn is_valid_square(self) -> (r: bool)
        ensures
            r == valid_square(self.index()),
    ;

    fn rank(self) -> (r: i8)
        requires
            valid_square(self.index()),
        ensures
            r == rank_of(self.index()),
    ;

    fn file(self) -> (r: i8)
        requires
            valid_square(self.index()),
        ensures
            r == file_of(self.index()),
    ;

    fn is_light(self) -> (r: bool)
        requires
            valid_square(self.index()),
        ensures
            r == ((rank_of(self.index()) + file_of(self.index())) % 2 == 1),
    ;

    fn is_dark(self) -> (r: bool)
        requires
            valid_square(self.index()),
        ensures
            r == ((rank_of(self.index()) + file_of(self.index())) % 2 == 0),
    ;

    fn square_string(self) -> (r: String)
        ensures
            r@ == square_name(self.index()),
    ;

    fn bit_array(self) -> (r: u64)
        requires
            valid_square(self.index()),
        ensures
            forall|t: int| #[trigger] bit(r, t) == (t == self.index()),
    ;

    fn up(self) -> (r: Self)
        requires
            valid_square(self.index() + 8),
        ensures
            r.index() == self.index() + 8,
    ;

    fn down(self) -> (r: Self)
        requires
            valid_square(self.index() - 8),
        ensures
            r.index() == self.index() - 8,
    ;

    fn left(self) -> (r: Self)
        requires
            valid_square(self.index() - 1),
        ensures
            r.index() == self.index() - 1,
    ;

    fn right(self) -> (r: Self)
        requires
            valid_square(self.index() + 1),
        ensures
            r.index() == self.index() + 1,
    ;

    fn translate(&self, dx: i8, dy: i8) -> (r: Self)
        requires
            -8 <= dx <= 8,
            -8 <= dy <= 8,
            valid_square(self.index() + dx + 8 * dy),
        ensures
            r.index() == self.index() + dx + 8 * dy,
    ;

    fn flip_x(self) -> (r: Self)
        requires
            valid_square(self.index()),
        ensures
            valid_square(r.index()),
            file_of(r.index()) == 7 - file_of(self.index()),
            rank_of(r.index()) == rank_of(self.index()),
    ;

    fn flip_y(self) -> (r: Self)
        requires
            valid_square(self.index()),
        ensures
            valid_square(r.index()),
            file_of(r.index()) == file_of(self.index()),
            rank_of(r.index()) == 7 - rank_of(self.index()),
    ;

    fn rotate_180(self) -> (r: Self)
        requires
            valid_square(self.index()),
        ensures
            valid_square(r.index()),
            file_of(r.index()) == 7 - file_of(self.index()),
            rank_of(r.index()) == 7 - rank_of(self.index()),
    ;
}

impl Square for i8 {
    open spec fn index(self) -> int {
        self as int
    }

    fn is_valid_square(self) -> (r: bool) {
        self >= A1 && self <= H8
    }

    fn rank(self) -> (r: i8) {
        assert(0 <= self < 64 ==> self >> 3 == self / 8) by (bit_vector);
        self >> 3
    }

    fn file(self) -> (r: i8) {
        assert(0 <= self < 64 ==> self & 7 == self % 8) by (bit_vector);
        self & 7
    }

    fn is_light(self) -> (r: bool) {
        let rank = self.rank();
        let file = self.file();
        (rank + file) % 2 == 1
    }

    fn is_dark(self) -> (r: bool) {
        let rank = self.rank();
        let file = self.file();
        (rank + file) % 2 == 0
    }

    fn square_string(self) -> (r: String) {
        let mut s = String::new();
        if self.is_valid_square() {
            push_char(&mut s, file_name(self.file()));
            push_char(&mut s, rank_name(self.rank()));
        } else {
            push_char(&mut s, 'N');
            push_char(&mut s, 'o');
            push_char(&mut s, 'n');
            push_char(&mut s, 'e');
        }
        assert(s@ =~= square_name(self as int));
        s
    }

    fn bit_array(self) -> (r: u64) {
        let r = 1u64 << (self as u64);
        proof {
            assert forall|t: int| #[trigger] bit(r, t) == (t == self as int) by {
                if 0 <= t < 64 {
                    crate::board::bit_array::lemma_bit_single(self as int, t);
                }
            }
        }
        r
    }

    fn up(self) -> (r: i8) {
        self + 8
    }

    fn down(self) -> (r: i8) {
        self - 8
    }

    fn left(self) -> (r: i8) {
        self - 1
    }

    fn right(self) -> (r: i8) {
        self + 1
    }

    fn translate(&self, dx: i8, dy: i8) -> (r: i8) {
        let delta = dx + (dy * 8);
        *self + delta
    }

    fn flip_x(self) -> (r: i8) {
        assert(0 <= self < 64 ==> 0 <= self ^ 7 < 64 && (self ^ 7) % 8 == 7 - self % 8 && (self ^ 7)
            / 8 == self / 8) by (bit_vector);
        self ^ 7
    }

    fn flip_y(self) -> (r: i8) {
        assert(0 <= self < 64 ==> 0 <= self ^ 56 < 64 && (self ^ 56) % 8 == self % 8 && (self ^ 56)
            / 8 == 7 - self / 8) by (bit_vector);
        self ^ 56
    }

    fn rotate_180(self) -> (r: i8) {
        assert(0 <= self < 64 ==> 0 <= self ^ 63 < 64 && (self ^ 63) % 8 == 7 - self % 8 && (self
            ^ 63) / 8 == 7 - self / 8) by (bit_vector);
        self ^ 63
    }
}

/// Reflecting a square twice on the same axis gives the square back.
pub proof fn law_flips_involutive(s: int)
    requires
        valid_square(s),
    ensures
        square_at(7 - file_of(square_at(7 - file_of(s), rank_of(s))), rank_of(square_at(7 - file_of(s), rank_of(s)))) == s,
        square_at(file_of(square_at(file_of(s), 7 - rank_of(s))), 7 - rank_of(square_at(file_of(s), 7 - rank_of(s)))) == s,
{
}

} // verus!
