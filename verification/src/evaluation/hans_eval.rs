use vstd::prelude::*;
use crate::board::bit_array::{bit, count_bits, lemma_set_squares_are_set, pop, set_squares, BitArray};
use crate::board::bit_array_lookup::{column, lemma_file_a, FILE_A};
use crate::board::bit_array::{translated_bit, lemma_bit_and, lemma_bit_not, lemma_bit_or, lemma_bit_shl, lemma_bit_shr, lemma_mask_of, mask_of};
use crate::board::square::{file_of, rank_of};

verus! {

/// The weights of the Hans evaluation.
#[derive(Debug, Clone, Copy)]
pub struct Attributes {
    pub piece_weight: [i32; 5],
    pub mobility: [i32; 6],
    pub pawn_push: [i32; 6],
    pub double_pawn: i32,
    pub isolated_pawn: i32,
    pub passed_pawn: i32,
    pub turn: i32,
    pub king_border_distance: i32,
}

/// The settings of the Hans evaluation: whether the passed pawn term counts, and the weights.
#[derive(Debug, Clone, Copy)]
pub struct EvaluationSettings {
    pub use_new_feature: bool,
    pub attr_weights: Attributes,
}

/// The weights of the standard Hans evaluation.
pub fn standard_eval() -> (r: Attributes)
    ensures
        r.piece_weight == [1000i32, 3200, 3300, 5000, 9000],
        r.mobility == [0i32, 50, 40, 30, 20, 0],
        r.pawn_push == [0i32, 10, 50, 150, 500, 2000],
        r.passed_pawn == 150,
        r.double_pawn == -20,
        r.isolated_pawn == -10,
        r.turn == 1,
        r.king_border_distance == 1,
{
    Attributes {
        piece_weight: [1000, 3200, 3300, 5000, 9000],
        mobility: [0, 50, 40, 30, 20, 0],
        pawn_push: [0, 10, 50, 150, 500, 2000],
        passed_pawn: 150,
        double_pawn: -20,
        isolated_pawn: -10,
        turn: 1,
        king_border_distance: 1,
    }
}

/// How many of the squares `ss` leave no square of `enemy` on their mask.
pub open spec fn count_free(ss: Seq<int>, enemy: u64, pawn_mask: Seq<u64>) -> int
    decreases ss.len(),
{
    if ss.len() == 0 {
        0
    } else {
        count_free(ss.drop_last(), enemy, pawn_mask) + (if enemy & pawn_mask[ss.last()] == 0 { 1int } else { 0 })
    }
}

/// The number of allied pawns whose mask holds no enemy pawn.
pub fn count_passed_pawns(allied_pawns: u64, enemy_pawns: u64, pawn_mask: &[u64; 64]) -> (r: i32)
    ensures
        r == count_free(set_squares(allied_pawns), enemy_pawns, pawn_mask@),
{
    let ghost ss = set_squares(allied_pawns);
    let squares = allied_pawns.iterate_set_bits_indices();
    let mut passed_pawns: i32 = 0;
    let mut i: usize = 0;
    proof {
        lemma_set_squares_are_set(allied_pawns);
        assert(ss.take(0) =~= Seq::<int>::empty());
    }
    while i < squares.len()
        invariant
            ss == set_squares(allied_pawns),
            ss.len() <= 64,
            squares@.len() == ss.len(),
            forall|j: int| 0 <= j < squares@.len() ==> squares@[j] == ss[j],
            forall|j: int| 0 <= j < ss.len() ==> 0 <= #[trigger] ss[j] < 64,
            i <= squares@.len(),
            0 <= passed_pawns <= i,
            passed_pawns == count_free(ss.take(i as int), enemy_pawns, pawn_mask@),
        decreases squares@.len() - i,
    {
        let s = squares[i];
        assert(s == ss[i as int]);
        assert(ss.take(i + 1).drop_last() =~= ss.take(i as int));
        if (enemy_pawns & pawn_mask[s as usize]) == 0 {
            passed_pawns = passed_pawns + 1;
        }
        i = i + 1;
    }
    assert(ss.take(ss.len() as int) =~= ss);
    passed_pawns
}

/// `x` filled downwards: every square with a square of `x` at or above it on its file.
pub open spec fn fill_down(x: u64) -> u64 {
    let w1 = x | (x >> 8u64);
    let w2 = w1 | (w1 >> 16u64);
    w2 | (w2 >> 32u64)
}

/// `x` filled upwards.
pub open spec fn fill_up(x: u64) -> u64 {
    let w1 = x | (x << 8u64);
    let w2 = w1 | (w1 << 16u64);
    w2 | (w2 << 32u64)
}

/// The squares that black pawns `b` guard against white pawns passing: those below a black
/// pawn or a square beside one, on its file and the neighbouring files.
pub open spec fn black_wall(b: u64) -> u64 {
    fill_down((b | (b << 1u64) & !FILE_A | (b >> 1u64) & !(FILE_A << 7u64)) >> 8u64)
}

/// The squares that white pawns `w` guard against black pawns passing.
pub open spec fn white_wall(w: u64) -> u64 {
    fill_up((w | (w << 1u64) & !FILE_A | (w >> 1u64) & !(FILE_A << 7u64)) << 8u64)
}

/// White's passed pawns less Black's, by pawn walls filled to the board's edge.
pub fn count_passed_pawns_kogge(white_pawn: u64, black_pawn: u64) -> (r: i32)
    ensures
        r == pop(white_pawn & !black_wall(black_pawn)) - pop(black_pawn & !white_wall(white_pawn)),
        r == pop(passed_white(white_pawn, black_pawn)) - pop(passed_black(black_pawn, white_pawn)),
{
    proof {
        law_passed_pawns(white_pawn, black_pawn);
    }
    let file_a = column(0);
    let file_h = column(7);
    proof {
        assert forall|t: int| 0 <= t < 64 implies bit(file_a, t) == bit(FILE_A, t) by {
            lemma_file_a(t);
        }
        crate::board::bit_array::lemma_bits_ext(file_a, FILE_A);
        assert forall|t: int| 0 <= t < 64 implies bit(file_h, t) == bit(FILE_A << 7u64, t) by {
            crate::board::bit_array::lemma_bit_shl(FILE_A, 7, t);
            if t >= 7 {
                lemma_file_a(t - 7);
            }
        }
        crate::board::bit_array::lemma_bits_ext(file_h, FILE_A << 7u64);
    }
    let mut black_wall = (black_pawn | (black_pawn << 1) & !file_a | (black_pawn >> 1) & !file_h) >> 8;
    let mut white_wall = (white_pawn | (white_pawn << 1) & !file_a | (white_pawn >> 1) & !file_h) << 8;
    black_wall = black_wall | (black_wall >> 8);
    black_wall = black_wall | (black_wall >> 16);
    black_wall = black_wall | (black_wall >> 32);
    white_wall = white_wall | (white_wall << 8);
    white_wall = white_wall | (white_wall << 16);
    white_wall = white_wall | (white_wall << 32);
    count_bits(white_pawn & !black_wall) as i32 - count_bits(black_pawn & !white_wall) as i32
}

/// A pawn of `b` stands on the file of `t` or a neighbouring one, on a higher rank.
pub open spec fn guarded_from_above(b: u64, t: int) -> bool {
    exists|a: int| 0 <= a < 64 && #[trigger] bit(b, a) && -1 <= file_of(a) - file_of(t) <= 1 && rank_of(a) > rank_of(t)
}

/// A pawn of `w` stands on the file of `t` or a neighbouring one, on a lower rank.
pub open spec fn guarded_from_below(w: u64, t: int) -> bool {
    exists|a: int| 0 <= a < 64 && #[trigger] bit(w, a) && -1 <= file_of(a) - file_of(t) <= 1 && rank_of(a) < rank_of(t)
}

/// The pawns of `b` spread to the neighbouring files.
pub open spec fn spread(b: u64) -> u64 {
    b | (b << 1u64) & !FILE_A | (b >> 1u64) & !(FILE_A << 7u64)
}

/// A square is in the spread of `b` when a pawn of `b` stands beside it or on it, on its rank.
#[verifier::rlimit(40)]
#[verifier::spinoff_prover]
proof fn lemma_spread(b: u64, u: int)
    requires
        0 <= u < 64,
    ensures
        bit(spread(b), u) == exists|a: int| 0 <= a < 64 && #[trigger] bit(b, a) && -1 <= file_of(a) - file_of(u) <= 1
            && rank_of(a) == rank_of(u),
{
    lemma_bit_or(b | (b << 1u64) & !FILE_A, (b >> 1u64) & !(FILE_A << 7u64), u);
    lemma_bit_or(b, (b << 1u64) & !FILE_A, u);
    lemma_bit_and(b << 1u64, !FILE_A, u);
    lemma_bit_and(b >> 1u64, !(FILE_A << 7u64), u);
    lemma_bit_not(FILE_A, u);
    lemma_bit_not(FILE_A << 7u64, u);
    lemma_bit_shl(b, 1, u);
    lemma_bit_shr(b, 1, u);
    lemma_bit_shl(FILE_A, 7, u);
    lemma_file_a(u);
    if u >= 7 {
        lemma_file_a(u - 7);
    }
    if exists|a: int| 0 <= a < 64 && #[trigger] bit(b, a) && -1 <= file_of(a) - file_of(u) <= 1 && rank_of(a) == rank_of(u) {
        let a = choose|a: int| 0 <= a < 64 && #[trigger] bit(b, a) && -1 <= file_of(a) - file_of(u) <= 1 && rank_of(a) == rank_of(u);
        assert(a == u || a == u - 1 || a == u + 1);
    }
    if bit(spread(b), u) {
        if bit(b, u) {
            assert(bit(b, u));
        } else if bit((b << 1u64) & !FILE_A, u) {
            assert(bit(b, u - 1));
        } else {
            assert(bit(b, u + 1));
        }
    }
}

/// `x` filled downwards holds a square exactly when `x` holds it or a square above it on its
/// file.
#[verifier::rlimit(40)]
#[verifier::spinoff_prover]
proof fn lemma_fill_down(x: u64, t: int)
    requires
        0 <= t < 64,
    ensures
        bit(fill_down(x), t) == exists|k: int| 0 <= k && t + 8 * k < 64 && #[trigger] bit(x, t + 8 * k),
{
    let w1 = x | (x >> 8u64);
    let w2 = w1 | (w1 >> 16u64);
    assert forall|u: int| 0 <= u < 64 implies #[trigger] bit(w1, u) == (bit(x, u) || (u + 8 < 64 && bit(x, u + 8))) by {
        lemma_bit_or(x, x >> 8u64, u);
        lemma_bit_shr(x, 8, u);
    }
    assert forall|u: int| 0 <= u < 64 implies #[trigger] bit(w2, u) == (bit(w1, u) || (u + 16 < 64 && bit(w1, u + 16))) by {
        lemma_bit_or(w1, w1 >> 16u64, u);
        lemma_bit_shr(w1, 16, u);
    }
    lemma_bit_or(w2, w2 >> 32u64, t);
    lemma_bit_shr(w2, 32, t);
    if exists|k: int| 0 <= k && t + 8 * k < 64 && #[trigger] bit(x, t + 8 * k) {
        let k = choose|k: int| 0 <= k && t + 8 * k < 64 && #[trigger] bit(x, t + 8 * k);
        assert(0 <= k <= 7);
        if k >= 4 {
            assert(bit(w2, t + 32));
        }
    }
    if bit(fill_down(x), t) {
        if bit(w2, t) {
            if bit(w1, t) {
                if bit(x, t) {
                    assert(bit(x, t + 8 * 0));
                } else {
                    assert(bit(x, t + 8 * 1));
                }
            } else {
                if bit(x, t + 16) {
                    assert(bit(x, t + 8 * 2));
                } else {
                    assert(bit(x, t + 8 * 3));
                }
            }
        } else {
            let u = t + 32;
            if bit(w1, u) {
                if bit(x, u) {
                    assert(bit(x, t + 8 * 4));
                } else {
                    assert(bit(x, t + 8 * 5));
                }
            } else {
                if bit(x, u + 16) {
                    assert(bit(x, t + 8 * 6));
                } else {
                    assert(bit(x, t + 8 * 7));
                }
            }
        }
    }
}

/// The black pawn wall holds exactly the squares that a black pawn guards from above: a white
/// pawn there is not passed.
#[verifier::rlimit(40)]
#[verifier::spinoff_prover]
pub proof fn law_black_wall(b: u64, t: int)
    requires
        0 <= t < 64,
    ensures
        bit(black_wall(b), t) == guarded_from_above(b, t),
{
    let y = spread(b) >> 8u64;
    lemma_fill_down(y, t);
    if bit(black_wall(b), t) {
        let k = choose|k: int| 0 <= k && t + 8 * k < 64 && #[trigger] bit(y, t + 8 * k);
        lemma_bit_shr(spread(b), 8, t + 8 * k);
        lemma_spread(b, t + 8 * k + 8);
        let a = choose|a: int| 0 <= a < 64 && #[trigger] bit(b, a) && -1 <= file_of(a) - file_of(t + 8 * k + 8) <= 1
            && rank_of(a) == rank_of(t + 8 * k + 8);
        assert(file_of(t + 8 * k + 8) == file_of(t) && rank_of(t + 8 * k + 8) == rank_of(t) + k + 1);
        assert(bit(b, a) && -1 <= file_of(a) - file_of(t) <= 1 && rank_of(a) > rank_of(t));
    }
    if guarded_from_above(b, t) {
        let a = choose|a: int| 0 <= a < 64 && #[trigger] bit(b, a) && -1 <= file_of(a) - file_of(t) <= 1 && rank_of(a)
            > rank_of(t);
        let k = rank_of(a) - rank_of(t) - 1;
        let u = t + 8 * k + 8;
        assert(file_of(u) == file_of(t) && rank_of(u) == rank_of(a));
        lemma_spread(b, u);
        lemma_bit_shr(spread(b), 8, t + 8 * k);
        assert(bit(y, t + 8 * k));
    }
}

/// `x` filled upwards holds a square exactly when `x` holds it or a square below it on its
/// file.
#[verifier::rlimit(40)]
#[verifier::spinoff_prover]
proof fn lemma_fill_up(x: u64, t: int)
    requires
        0 <= t < 64,
    ensures
        bit(fill_up(x), t) == exists|k: int| 0 <= k && t - 8 * k >= 0 && #[trigger] bit(x, t - 8 * k),
{
    let w1 = x | (x << 8u64);
    let w2 = w1 | (w1 << 16u64);
    assert forall|u: int| 0 <= u < 64 implies #[trigger] bit(w1, u) == (bit(x, u) || (u >= 8 && bit(x, u - 8))) by {
        lemma_bit_or(x, x << 8u64, u);
        lemma_bit_shl(x, 8, u);
    }
    assert forall|u: int| 0 <= u < 64 implies #[trigger] bit(w2, u) == (bit(w1, u) || (u >= 16 && bit(w1, u - 16))) by {
        lemma_bit_or(w1, w1 << 16u64, u);
        lemma_bit_shl(w1, 16, u);
    }
    lemma_bit_or(w2, w2 << 32u64, t);
    lemma_bit_shl(w2, 32, t);
    if exists|k: int| 0 <= k && t - 8 * k >= 0 && #[trigger] bit(x, t - 8 * k) {
        let k = choose|k: int| 0 <= k && t - 8 * k >= 0 && #[trigger] bit(x, t - 8 * k);
        assert(0 <= k <= 7);
        if k >= 4 {
            assert(bit(w2, t - 32));
        }
    }
    if bit(fill_up(x), t) {
        if bit(w2, t) {
            if bit(w1, t) {
                if bit(x, t) {
                    assert(bit(x, t - 8 * 0));
                } else {
                    assert(bit(x, t - 8 * 1));
                }
            } else {
                if bit(x, t - 16) {
                    assert(bit(x, t - 8 * 2));
                } else {
                    assert(bit(x, t - 8 * 3));
                }
            }
        } else {
            let u = t - 32;
            if bit(w1, u) {
                if bit(x, u) {
                    assert(bit(x, t - 8 * 4));
                } else {
                    assert(bit(x, t - 8 * 5));
                }
            } else {
                if bit(x, u - 16) {
                    assert(bit(x, t - 8 * 6));
                } else {
                    assert(bit(x, t - 8 * 7));
                }
            }
        }
    }
}

/// The white pawn wall holds exactly the squares that a white pawn guards from below: a black
/// pawn there is not passed.
#[verifier::rlimit(40)]
#[verifier::spinoff_prover]
pub proof fn law_white_wall(w: u64, t: int)
    requires
        0 <= t < 64,
    ensures
        bit(white_wall(w), t) == guarded_from_below(w, t),
{
    let y = spread(w) << 8u64;
    lemma_fill_up(y, t);
    if bit(white_wall(w), t) {
        let k = choose|k: int| 0 <= k && t - 8 * k >= 0 && #[trigger] bit(y, t - 8 * k);
        lemma_bit_shl(spread(w), 8, t - 8 * k);
        lemma_spread(w, t - 8 * k - 8);
        let a = choose|a: int| 0 <= a < 64 && #[trigger] bit(w, a) && -1 <= file_of(a) - file_of(t - 8 * k - 8) <= 1
            && rank_of(a) == rank_of(t - 8 * k - 8);
        assert(file_of(t - 8 * k - 8) == file_of(t) && rank_of(t - 8 * k - 8) == rank_of(t) - k - 1);
        assert(bit(w, a) && -1 <= file_of(a) - file_of(t) <= 1 && rank_of(a) < rank_of(t));
    }
    if guarded_from_below(w, t) {
        let a = choose|a: int| 0 <= a < 64 && #[trigger] bit(w, a) && -1 <= file_of(a) - file_of(t) <= 1 && rank_of(a)
            < rank_of(t);
        let k = rank_of(t) - rank_of(a) - 1;
        let u = t - 8 * k - 8;
        assert(file_of(u) == file_of(t) && rank_of(u) == rank_of(a));
        lemma_spread(w, u);
        lemma_bit_shl(spread(w), 8, t - 8 * k);
        assert(bit(y, t - 8 * k));
    }
}

/// The passed white pawns of `w` against black pawns `b`: no black pawn stands ahead of one on
/// its file or a neighbouring file.
pub open spec fn passed_white(w: u64, b: u64) -> u64 {
    mask_of(|s: int| bit(w, s) && !guarded_from_above(b, s))
}

/// The passed black pawns of `b` against white pawns `w`.
pub open spec fn passed_black(b: u64, w: u64) -> u64 {
    mask_of(|s: int| bit(b, s) && !guarded_from_below(w, s))
}

/// The pawns outside the other side's wall are the passed pawns.
pub proof fn law_passed_pawns(w: u64, b: u64)
    ensures
        w & !black_wall(b) == passed_white(w, b),
        b & !white_wall(w) == passed_black(b, w),
{
    assert forall|t: int| 0 <= t < 64 implies #[trigger] bit(w & !black_wall(b), t) == (bit(w, t) && !guarded_from_above(b, t)) by {
        lemma_bit_and(w, !black_wall(b), t);
        lemma_bit_not(black_wall(b), t);
        law_black_wall(b, t);
    }
    lemma_mask_of(|s: int| bit(w, s) && !guarded_from_above(b, s), w & !black_wall(b));
    assert forall|t: int| 0 <= t < 64 implies #[trigger] bit(b & !white_wall(w), t) == (bit(b, t) && !guarded_from_below(w, t)) by {
        lemma_bit_and(b, !white_wall(w), t);
        lemma_bit_not(white_wall(w), t);
        law_white_wall(w, t);
    }
    lemma_mask_of(|s: int| bit(b, s) && !guarded_from_below(w, s), b & !white_wall(w));
}

/// The pawns of `pawns` that stand `i` ranks above another pawn of `pawns` on their file, for
/// each distance `i` from one up to `n`, added up.
pub open spec fn doubled_count(pawns: u64, n: int) -> int
    decreases n,
{
    if n <= 0 {
        0
    } else {
        doubled_count(pawns, n - 1) + pop(pawns & mask_of(|t: int| translated_bit(pawns, 0, n, t)))
    }
}

/// The doubled pawns of `pawns`: pairs on one file at most five ranks apart.
pub fn count_doubled_pawns(pawns: u64) -> (r: i32)
    ensures
        r == doubled_count(pawns, 5),
{
    let mut doubled_pawns: u32 = 0;
    let mut i: i8 = 1;
    while i <= 5
        invariant
            1 <= i <= 6,
            doubled_pawns == doubled_count(pawns, i - 1),
            doubled_pawns <= 64 * (i - 1),
        decreases 6 - i,
    {
        let up = pawns.translate_vertical(i);
        proof {
            lemma_mask_of(|t: int| translated_bit(pawns, 0, i as int, t), up);
        }
        let count = count_bits(pawns & up);
        doubled_pawns = doubled_pawns + count;
        i = i + 1;
    }
    doubled_pawns as i32
}

/// The pawns of `pawns` on file `x` where no pawn of `pawns` stands on a file next to it.
pub open spec fn isolated_on_file(pawns: u64, x: int) -> int {
    if pawns & mask_of(|t: int| file_of(t) == x - 1 || file_of(t) == x + 1) == 0 {
        pop(mask_of(|t: int| file_of(t) == x) & pawns) as int
    } else {
        0
    }
}

/// The isolated pawns on the first `n` files.
pub open spec fn isolated_count(pawns: u64, n: int) -> int
    decreases n,
{
    if n <= 0 {
        0
    } else {
        isolated_count(pawns, n - 1) + isolated_on_file(pawns, n - 1)
    }
}

/// The isolated pawns of `pawns`: those with no pawn of `pawns` on a file next to theirs.
pub fn count_isolated_pawns(pawns: u64) -> (r: i32)
    ensures
        r == isolated_count(pawns, 8),
{
    let mut isolated_pawns: i32 = 0;
    let mut x: i8 = 0;
    while x < 8
        invariant
            0 <= x <= 8,
            isolated_pawns == isolated_count(pawns, x as int),
            0 <= isolated_pawns <= 64 * x,
        decreases 8 - x,
    {
        let col = column(x);
        let adjacent = crate::board::bit_array_lookup::adjacent_columns(x);
        proof {
            lemma_mask_of(|t: int| file_of(t) == x, col);
            lemma_mask_of(|t: int| file_of(t) == x - 1 || file_of(t) == x + 1, adjacent);
        }
        let file = col & pawns;
        let isolated = (pawns & adjacent) == 0;
        let count = count_bits(file) as i32;
        if isolated {
            isolated_pawns = isolated_pawns + count;
        }
        x = x + 1;
    }
    isolated_pawns
}

} // verus!
