use vstd::prelude::*;
use crate::board::bit_array::{bit, group_bit_lemmas, lemma_bit_shl};
use crate::board::square::{Square, file_of, rank_of, valid_square};
use crate::board::bit_array::{BitArray, translated_bit};
use crate::board::player_color::PlayerColor;

verus! {

broadcast use group_bit_lemmas;

/// All squares of the a-file.
pub const FILE_A: u64 = 0x0101_0101_0101_0101;

/// All squares of the first rank.
pub const RANK_1: u64 = 0xff;

/// Which squares `FILE_A` holds.
pub proof fn lemma_file_a(t: int)
    requires
        0 <= t < 64,
    ensures
        bit(FILE_A, t) == (file_of(t) == 0),
{
    let u = t as u64;
    assert(u < 64 ==> ((0x0101_0101_0101_0101u64 >> u) & 1u64 == 1u64 <==> u % 8 == 0)) by (bit_vector);
}

proof fn lemma_rank_1(t: int)
    requires
        0 <= t < 64,
    ensures
        bit(RANK_1, t) == (rank_of(t) == 0),
{
    let u = t as u64;
    assert(u < 64 ==> ((0xffu64 >> u) & 1u64 == 1u64 <==> u < 8)) by (bit_vector);
}

/// The squares of file `file` (0 = a .. 7 = h).
pub fn column(file: i8) -> (r: u64)
    requires
        0 <= file < 8,
    ensures
        forall|t: int| #[trigger] bit(r, t) == (0 <= t < 64 && file_of(t) == file),
{
    let r = FILE_A << (file as u64);
    proof {
        assert forall|t: int| #[trigger] bit(r, t) == (0 <= t < 64 && file_of(t) == file) by {
            if 0 <= t < 64 {
                lemma_bit_shl(FILE_A, file as u64, t);
                if t >= file {
                    lemma_file_a(t - file);
                }
            }
        }
    }
    r
}

/// The squares of rank `rank` (0 = first rank .. 7 = eighth rank).
pub fn row(rank: i8) -> (r: u64)
    requires
        0 <= rank < 8,
    ensures
        forall|t: int| #[trigger] bit(r, t) == (0 <= t < 64 && rank_of(t) == rank),
{
    let r = RANK_1 << (8 * rank as u64);
    proof {
        assert forall|t: int| #[trigger] bit(r, t) == (0 <= t < 64 && rank_of(t) == rank) by {
            if 0 <= t < 64 {
                lemma_bit_shl(RANK_1, (8 * rank) as u64, t);
                if t >= 8 * rank {
                    lemma_rank_1(t - 8 * rank);
                }
            }
        }
    }
    r
}

/// The squares of the files `0 ..= last_file`.
pub fn accum_columns(last_file: i8) -> (r: u64)
    requires
        0 <= last_file < 8,
    ensures
        forall|t: int| #[trigger] bit(r, t) == (0 <= t < 64 && file_of(t) <= last_file),
{
    let mut acc: u64 = 0;
    let mut i: i8 = 0;
    while i <= last_file
        invariant
            0 <= i <= last_file + 1,
            last_file < 8,
            forall|t: int| #[trigger] bit(acc, t) == (0 <= t < 64 && file_of(t) < i),
        decreases last_file + 1 - i,
    {
        let c = column(i);
        acc = acc | c;
        i = i + 1;
    }
    acc
}

/// The squares of the files next to `file`.
pub fn adjacent_columns(file: i8) -> (r: u64)
    requires
        0 <= file < 8,
    ensures
        forall|t: int| #[trigger] bit(r, t) == (0 <= t < 64 && (file_of(t) == file - 1 || file_of(t) == file + 1)),
{
    let mut r: u64 = 0;
    if file > 0 {
        r = r | column(file - 1);
    }
    if file < 7 {
        r = r | column(file + 1);
    }
    r
}


pub open spec fn abs(x: int) -> int {
    if x < 0 {
        -x
    } else {
        x
    }
}

/// Files from square `s` to square `t`.
pub open spec fn file_diff(s: int, t: int) -> int {
    file_of(t) - file_of(s)
}

/// Ranks from square `s` to square `t`.
pub open spec fn rank_diff(s: int, t: int) -> int {
    rank_of(t) - rank_of(s)
}

/// A knight on `s` reaches `t`.
pub open spec fn knight_step(s: int, t: int) -> bool {
    valid_square(s) && valid_square(t) && ((abs(file_diff(s, t)) == 1 && abs(rank_diff(s, t)) == 2) || (abs(
        file_diff(s, t),
    ) == 2 && abs(rank_diff(s, t)) == 1))
}

/// A king on `s` reaches `t`.
pub open spec fn king_step(s: int, t: int) -> bool {
    valid_square(s) && valid_square(t) && abs(file_diff(s, t)) <= 1 && abs(rank_diff(s, t)) <= 1 && s != t
}

/// A pawn of side `color` on `s` attacks `t`.
pub open spec fn pawn_attack(color: PlayerColor, s: int, t: int) -> bool {
    valid_square(s) && valid_square(t) && abs(file_diff(s, t)) == 1 && rank_diff(s, t) == (if color
        == PlayerColor::White {
        1int
    } else {
        -1int
    })
}

/// `t` lies on a diagonal through `s` (and is not `s`).
pub open spec fn diagonal_line(s: int, t: int) -> bool {
    valid_square(s) && valid_square(t) && abs(file_diff(s, t)) == abs(rank_diff(s, t)) && s != t
}

/// `t` lies on the rank or file of `s` (and is not `s`).
pub open spec fn orthogonal_line(s: int, t: int) -> bool {
    valid_square(s) && valid_square(t) && (file_diff(s, t) == 0 || rank_diff(s, t) == 0) && s != t
}

pub open spec fn strictly_between(x: int, lo: int, hi: int) -> bool {
    (lo < x < hi) || (hi < x < lo)
}

/// Square `u` lies strictly between `s` and `t` on the line (rank, file or diagonal) that
/// joins them.
pub open spec fn between(s: int, t: int, u: int) -> bool {
    let df = file_diff(s, t);
    let dr = rank_diff(s, t);
    let uf = file_diff(s, u);
    let ur = rank_diff(s, u);
    &&& valid_square(u)
    &&& (orthogonal_line(s, t) || diagonal_line(s, t))
    &&& (df == 0 ==> uf == 0 && strictly_between(ur, 0, dr))
    &&& (dr == 0 ==> ur == 0 && strictly_between(uf, 0, df))
    &&& (df != 0 && dr != 0 ==> strictly_between(uf, 0, df) && strictly_between(ur, 0, dr) && (df == dr
        ==> uf == ur) && (df == -dr ==> uf == -ur))
}

proof fn lemma_translate_single(s: int, dx: int, dy: int, t: int)
    requires
        valid_square(s),
        0 <= t < 64,
    ensures
        translated_bit(1u64 << (s as u64), dx, dy, t) == (file_diff(s, t) == dx && rank_diff(s, t) == dy
            && 0 <= file_of(s) + dx < 8),
{
    if 0 <= t - dx - 8 * dy < 64 {
        crate::board::bit_array::lemma_bit_single(s, t - dx - 8 * dy);
    }
}

/// A square of a translated bitboard is set when the square it came from is set.
pub proof fn lemma_translate_any(b: u64, dx: int, dy: int, t: int)
    requires
        0 <= t < 64,
    ensures
        translated_bit(b, dx, dy, t) == exists|a: int| 0 <= a < 64 && #[trigger] bit(b, a)
            && file_diff(a, t) == dx && rank_diff(a, t) == dy,
{
    if exists|a: int| 0 <= a < 64 && #[trigger] bit(b, a) && file_diff(a, t) == dx && rank_diff(a, t) == dy {
        let a = choose|a: int| 0 <= a < 64 && #[trigger] bit(b, a) && file_diff(a, t) == dx && rank_diff(a, t) == dy;
        assert(a == t - dx - 8 * dy);
    }
}

/// The squares a knight on `s` reaches.
pub fn knight_moves(s: i8) -> (r: u64)
    requires
        valid_square(s as int),
    ensures
        forall|t: int| 0 <= t < 64 ==> (#[trigger] bit(r, t) == knight_step(s as int, t)),
{
    let b = s.bit_array();
    let m1 = b.translate(2, 1) | b.translate(2, -1);
    let m2 = b.translate(-2, 1) | b.translate(-2, -1);
    let m3 = b.translate(1, 2) | b.translate(1, -2);
    let m4 = b.translate(-1, 2) | b.translate(-1, -2);
    let r = (m1 | m2) | (m3 | m4);
    proof {
        broadcast use group_bit_lemmas;
        assert(b == 1u64 << (s as u64)) by {
            assert forall|t: int| 0 <= t < 64 implies bit(b, t) == bit(1u64 << (s as u64), t) by {
                crate::board::bit_array::lemma_bit_single(s as int, t);
            }
            crate::board::bit_array::lemma_bits_ext(b, 1u64 << (s as u64));
        }
        assert forall|t: int| 0 <= t < 64 implies (#[trigger] bit(r, t) == knight_step(s as int, t)) by {
            lemma_translate_single(s as int, 2, 1, t);
            lemma_translate_single(s as int, 2, -1, t);
            lemma_translate_single(s as int, -2, 1, t);
            lemma_translate_single(s as int, -2, -1, t);
            lemma_translate_single(s as int, 1, 2, t);
            lemma_translate_single(s as int, 1, -2, t);
            lemma_translate_single(s as int, -1, 2, t);
            lemma_translate_single(s as int, -1, -2, t);
        }
    }
    r
}


/// The squares a king on `s` reaches.
pub fn king_moves(s: i8) -> (r: u64)
    requires
        valid_square(s as int),
    ensures
        forall|t: int| 0 <= t < 64 ==> (#[trigger] bit(r, t) == king_step(s as int, t)),
{
    let b = s.bit_array();
    let m1 = b.translate(0, 1) | b.translate(0, -1);
    let m2 = b.translate(-1, 0) | b.translate(1, 0);
    let m3 = b.translate(-1, 1) | b.translate(1, 1);
    let m4 = b.translate(-1, -1) | b.translate(1, -1);
    let r = (m1 | m2) | (m3 | m4);
    proof {
        broadcast use group_bit_lemmas;
        lemma_single_bit(s as int, b);
        assert forall|t: int| 0 <= t < 64 implies (#[trigger] bit(r, t) == king_step(s as int, t)) by {
            lemma_translate_single(s as int, 0, 1, t);
            lemma_translate_single(s as int, 0, -1, t);
            lemma_translate_single(s as int, -1, 0, t);
            lemma_translate_single(s as int, 1, 0, t);
            lemma_translate_single(s as int, -1, 1, t);
            lemma_translate_single(s as int, 1, 1, t);
            lemma_translate_single(s as int, -1, -1, t);
            lemma_translate_single(s as int, 1, -1, t);
        }
    }
    r
}

/// The squares a pawn of side `color` on `s` attacks.
pub fn pawn_attacks(color: PlayerColor, s: i8) -> (r: u64)
    requires
        valid_square(s as int),
    ensures
        forall|t: int| 0 <= t < 64 ==> (#[trigger] bit(r, t) == pawn_attack(color, s as int, t)),
{
    let b = s.bit_array();
    let dy: i8 = match color {
        PlayerColor::White => 1,
        PlayerColor::Black => -1,
    };
    let r = b.translate(-1, dy) | b.translate(1, dy);
    proof {
        broadcast use group_bit_lemmas;
        lemma_single_bit(s as int, b);
        assert forall|t: int| 0 <= t < 64 implies (#[trigger] bit(r, t) == pawn_attack(color, s as int, t)) by {
            lemma_translate_single(s as int, -1, dy as int, t);
            lemma_translate_single(s as int, 1, dy as int, t);
        }
    }
    r
}

proof fn lemma_single_bit(s: int, b: u64)
    requires
        valid_square(s),
        forall|t: int| #[trigger] bit(b, t) == (t == s),
    ensures
        b == 1u64 << (s as u64),
{
    assert forall|t: int| 0 <= t < 64 implies bit(b, t) == bit(1u64 << (s as u64), t) by {
        crate::board::bit_array::lemma_bit_single(s, t);
    }
    crate::board::bit_array::lemma_bits_ext(b, 1u64 << (s as u64));
}

fn strictly_between_exec(x: i8, lo: i8, hi: i8) -> (r: bool)
    ensures
        r == strictly_between(x as int, lo as int, hi as int),
{
    (lo < x && x < hi) || (hi < x && x < lo)
}

/// Whether `u` lies strictly between `s` and `t` on the line that joins them.
pub fn is_between(s: i8, t: i8, u: i8) -> (r: bool)
    requires
        valid_square(s as int),
        valid_square(t as int),
        valid_square(u as int),
    ensures
        r == between(s as int, t as int, u as int),
{
    let df = t.file() - s.file();
    let dr = t.rank() - s.rank();
    let uf = u.file() - s.file();
    let ur = u.rank() - s.rank();
    let adf = if df < 0 {
        -df
    } else {
        df
    };
    let adr = if dr < 0 {
        -dr
    } else {
        dr
    };
    let aligned = s != t && (df == 0 || dr == 0 || adf == adr);
    if !aligned {
        return false;
    }
    if df == 0 {
        uf == 0 && strictly_between_exec(ur, 0, dr)
    } else if dr == 0 {
        ur == 0 && strictly_between_exec(uf, 0, df)
    } else {
        strictly_between_exec(uf, 0, df) && strictly_between_exec(ur, 0, dr) && (df != dr || uf == ur) && (df
            != -dr || uf == -ur)
    }
}

/// The squares strictly between `s` and `t` when they share a rank, file or diagonal; none
/// otherwise.
pub fn in_between(s: i8, t: i8) -> (r: u64)
    requires
        valid_square(s as int),
        valid_square(t as int),
    ensures
        forall|u: int| 0 <= u < 64 ==> (#[trigger] bit(r, u) == between(s as int, t as int, u)),
{
    let mut r: u64 = 0;
    let mut u: i8 = 0;
    while u < 64
        invariant
            0 <= u <= 64,
            valid_square(s as int),
            valid_square(t as int),
            forall|x: int| 0 <= x < 64 ==> (#[trigger] bit(r, x) == (x < u && between(s as int, t as int, x))),
        decreases 64 - u,
    {
        if is_between(s, t, u) {
            r.set_bit(u);
        }
        u = u + 1;
    }
    r
}

/// The squares on the diagonals through `s`.
pub fn diagonal_moves(s: i8) -> (r: u64)
    requires
        valid_square(s as int),
    ensures
        forall|t: int| 0 <= t < 64 ==> (#[trigger] bit(r, t) == diagonal_line(s as int, t)),
{
    let mut r: u64 = 0;
    let mut u: i8 = 0;
    while u < 64
        invariant
            0 <= u <= 64,
            valid_square(s as int),
            forall|x: int| 0 <= x < 64 ==> (#[trigger] bit(r, x) == (x < u && diagonal_line(s as int, x))),
        decreases 64 - u,
    {
        let df = u.file() - s.file();
        let dr = u.rank() - s.rank();
        if u != s && (df == dr || df == -dr) {
            r.set_bit(u);
        }
        u = u + 1;
    }
    r
}

/// The squares on the rank and file of `s`.
pub fn orthogonal_moves(s: i8) -> (r: u64)
    requires
        valid_square(s as int),
    ensures
        forall|t: int| 0 <= t < 64 ==> (#[trigger] bit(r, t) == orthogonal_line(s as int, t)),
{
    let mut r: u64 = 0;
    let mut u: i8 = 0;
    while u < 64
        invariant
            0 <= u <= 64,
            valid_square(s as int),
            forall|x: int| 0 <= x < 64 ==> (#[trigger] bit(r, x) == (x < u && orthogonal_line(s as int, x))),
        decreases 64 - u,
    {
        if u != s && (u.file() == s.file() || u.rank() == s.rank()) {
            r.set_bit(u);
        }
        u = u + 1;
    }
    r
}

} // verus!
