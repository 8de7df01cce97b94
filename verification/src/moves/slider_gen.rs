use vstd::prelude::*;
use crate::board::bit_array::{
    bit, count_bits, group_bit_lemmas, lemma_bit_and, lemma_bit_not, lemma_bit_or,
    lemma_bit_shr, lemma_bit_single, lemma_bit_zero, lemma_bits_ext, lemma_set_squares_are_set,
    lemma_set_squares_has, lemma_set_squares_len, lemma_set_squares_short, set_squares, BitArray,
};
use crate::board::bit_array_gen::{
    bishop_blocker, gen_bishop_blocker_mask, gen_rook_blocker_mask, rook_blocker,
};
use vstd::arithmetic::power2::pow2;
use crate::board::square::{from_file_rank, Square};
use crate::moves::kogge_gen::{
    capture_fill, dir_dx, dir_dy, fill_down_cap, fill_down_left_cap, fill_down_right_cap,
    fill_left_cap, fill_reaches, fill_right_cap, fill_up_cap, fill_up_left_cap,
    fill_up_right_cap, free_path, lemma_occluded_fill, lemma_one_step_bit, lemma_ray_coords,
    lemma_ray_extend, lemma_ray_next, lemma_ray_prefix, lemma_ray_short, occluded_fill, one_step,
    ray_file, ray_ok, ray_rank, ray_sq, slider_reaches, Direction, free_run, arrival_free,
};

verus! {

/// Square `t` is a move of a slider on `s` in direction `d`: the squares before it on the ray
/// are empty, and `t` is an opponent's piece or not an allied one.
pub open spec fn slider_target(s: int, d: Direction, t: int, allied: u64, opponent: u64) -> bool {
    slider_reaches(s, d, t, allied | opponent) && (bit(opponent, t) || !bit(allied, t))
}

/// Square `t` is a move of a rook on `s`.
pub open spec fn rook_target(s: int, t: int, allied: u64, opponent: u64) -> bool {
    ||| slider_target(s, Direction::Up, t, allied, opponent)
    ||| slider_target(s, Direction::Down, t, allied, opponent)
    ||| slider_target(s, Direction::Right, t, allied, opponent)
    ||| slider_target(s, Direction::Left, t, allied, opponent)
}

/// Square `t` is a move of a bishop on `s`.
pub open spec fn bishop_target(s: int, t: int, allied: u64, opponent: u64) -> bool {
    ||| slider_target(s, Direction::UpRight, t, allied, opponent)
    ||| slider_target(s, Direction::UpLeft, t, allied, opponent)
    ||| slider_target(s, Direction::DownRight, t, allied, opponent)
    ||| slider_target(s, Direction::DownLeft, t, allied, opponent)
}

/// Some square before the `k`-th one on the ray from `s` in direction `d` is `t`.
pub open spec fn on_ray_before(s: int, d: Direction, k: int, t: int) -> bool {
    exists|j: int| #![trigger ray_sq(s, d, j)] 1 <= j < k && t == ray_sq(s, d, j)
}

/// The file and rank offsets of one step in direction `d`.
pub fn direction_step(d: Direction) -> (r: (i8, i8))
    ensures
        r.0 == dir_dx(d),
        r.1 == dir_dy(d),
{
    match d {
        Direction::Up => (0, 1),
        Direction::Down => (0, -1),
        Direction::Right => (1, 0),
        Direction::UpRight => (1, 1),
        Direction::DownRight => (1, -1),
        Direction::Left => (-1, 0),
        Direction::UpLeft => (-1, 1),
        Direction::DownLeft => (-1, -1),
    }
}

/// The moves of a slider on `square` in direction `d`, found by walking the ray.
fn walk_ray(square: i8, d: Direction, allied: u64, opponent: u64) -> (moves: u64)
    requires
        0 <= square < 64,
    ensures
        forall|t: int| 0 <= t < 64 ==> (bit(moves, t) == slider_target(square as int, d, t, allied, opponent)),
{
    broadcast use group_bit_lemmas;

    let ghost s = square as int;
    let ghost blocked = allied | opponent;
    let (dx, dy) = direction_step(d);
    let x = square.file();
    let y = square.rank();
    let mut moves: u64 = 0;
    let mut sx: i8 = x + dx;
    let mut sy: i8 = y + dy;
    let ghost mut k: int = 1;
    proof {
        lemma_ray_coords(s, d, 0);
        assert forall|t: int| 0 <= t < 64 implies !#[trigger] bit(moves, t) by {
            lemma_bit_zero(t);
        }
    }
    loop
        invariant_except_break
            forall|j: int| 1 <= j < k ==> ray_ok(s, d, j) && !#[trigger] bit(blocked, ray_sq(s, d, j)),
            forall|t: int| 0 <= t < 64 ==> (#[trigger] bit(moves, t) == on_ray_before(s, d, k, t)),
        invariant
            0 <= s < 64,
            s == square,
            blocked == allied | opponent,
            dx == dir_dx(d),
            dy == dir_dy(d),
            1 <= k <= 8,
            sx == ray_file(s, d, k),
            sy == ray_rank(s, d, k),
        ensures
            forall|t: int| 0 <= t < 64 ==> (bit(moves, t) == slider_target(s, d, t, allied, opponent)),
        decreases 8 - k,
    {
        if !(sx >= 0 && sx < 8 && sy >= 0 && sy < 8) {
            proof {
                assert(!ray_ok(s, d, k));
                assert forall|t: int| 0 <= t < 64 implies (bit(moves, t) == slider_target(s, d, t, allied, opponent)) by {
                    lemma_bit_or(allied, opponent, t);
                    if bit(moves, t) {
                        let j = choose|j: int| #![trigger ray_sq(s, d, j)] 1 <= j < k && t == ray_sq(s, d, j);
                        assert(ray_sq(s, d, j) == t);
                        assert(!bit(blocked, ray_sq(s, d, j)));
                    }
                    if slider_target(s, d, t, allied, opponent) {
                        let j = choose|j: int| #![trigger ray_sq(s, d, j)] 1 <= j && ray_ok(s, d, j) && t == ray_sq(s, d, j)
                            && forall|i: int| 1 <= i < j ==> !#[trigger] bit(allied | opponent, ray_sq(s, d, i));
                        if j >= k {
                            lemma_ray_prefix(s, d, j, k);
                        }
                        assert(on_ray_before(s, d, k, t));
                    }
                }
            }
            break;
        }
        proof {
            lemma_ray_short(s, d, k);
            lemma_ray_coords(s, d, k);
        }
        let next = from_file_rank(sx, sy);
        assert(next == ray_sq(s, d, k));
        if opponent.get_bit(next) {
            let ghost old_moves = moves;
            moves.set_bit(next);
            proof {
                assert forall|t: int| 0 <= t < 64 implies (bit(moves, t) == slider_target(s, d, t, allied, opponent)) by {
                    lemma_bit_or(allied, opponent, t);
                    if bit(moves, t) {
                        if t == next {
                            assert(ray_sq(s, d, k) == t);
                        } else {
                            assert(bit(old_moves, t));
                            let j = choose|j: int| #![trigger ray_sq(s, d, j)] 1 <= j < k && t == ray_sq(s, d, j);
                            assert(ray_sq(s, d, j) == t);
                            assert(!bit(blocked, ray_sq(s, d, j)));
                            lemma_bit_or(allied, opponent, ray_sq(s, d, j));
                        }
                    }
                    if slider_target(s, d, t, allied, opponent) {
                        let j = choose|j: int| #![trigger ray_sq(s, d, j)] 1 <= j && ray_ok(s, d, j) && t == ray_sq(s, d, j)
                            && forall|i: int| 1 <= i < j ==> !#[trigger] bit(allied | opponent, ray_sq(s, d, i));
                        if j > k {
                            lemma_bit_or(allied, opponent, ray_sq(s, d, k));
                            assert(!bit(allied | opponent, ray_sq(s, d, k)));
                        }
                        if j < k {
                            assert(on_ray_before(s, d, k, t));
                        }
                    }
                }
            }
            break;
        } else if allied.get_bit(next) {
            proof {
                assert forall|t: int| 0 <= t < 64 implies (bit(moves, t) == slider_target(s, d, t, allied, opponent)) by {
                    lemma_bit_or(allied, opponent, t);
                    if bit(moves, t) {
                        let j = choose|j: int| #![trigger ray_sq(s, d, j)] 1 <= j < k && t == ray_sq(s, d, j);
                        assert(ray_sq(s, d, j) == t);
                        assert(!bit(blocked, ray_sq(s, d, j)));
                    }
                    if slider_target(s, d, t, allied, opponent) {
                        let j = choose|j: int| #![trigger ray_sq(s, d, j)] 1 <= j && ray_ok(s, d, j) && t == ray_sq(s, d, j)
                            && forall|i: int| 1 <= i < j ==> !#[trigger] bit(allied | opponent, ray_sq(s, d, i));
                        if j > k {
                            lemma_bit_or(allied, opponent, ray_sq(s, d, k));
                            assert(!bit(allied | opponent, ray_sq(s, d, k)));
                        }
                        if j < k {
                            assert(on_ray_before(s, d, k, t));
                        }
                    }
                }
            }
            break;
        } else {
            let ghost old_moves = moves;
            moves.set_bit(next);
            proof {
                lemma_bit_or(allied, opponent, next as int);
                assert(ray_ok(s, d, k));
                assert(!bit(blocked, ray_sq(s, d, k)));
                assert forall|j: int| 1 <= j < k + 1 implies ray_ok(s, d, j) && !#[trigger] bit(blocked, ray_sq(s, d, j)) by {
                    if j < k {
                        assert(ray_ok(s, d, j) && !bit(blocked, ray_sq(s, d, j)));
                    }
                }
                assert forall|t: int| 0 <= t < 64 implies (#[trigger] bit(moves, t) == on_ray_before(s, d, k + 1, t)) by {
                    if bit(moves, t) {
                        if t == next {
                            assert(ray_sq(s, d, k) == t);
                        } else {
                            assert(bit(old_moves, t));
                            let j = choose|j: int| #![trigger ray_sq(s, d, j)] 1 <= j < k && t == ray_sq(s, d, j);
                            assert(ray_sq(s, d, j) == t);
                        }
                    }
                    if on_ray_before(s, d, k + 1, t) {
                        let j = choose|j: int| #![trigger ray_sq(s, d, j)] 1 <= j < k + 1 && t == ray_sq(s, d, j);
                        if j < k {
                            assert(on_ray_before(s, d, k, t));
                        }
                    }
                }
            }
        }
        sx = sx + dx;
        sy = sy + dy;
        proof {
            k = k + 1;
        }
    }
    moves
}

/// The moves of a rook on `square`: along each rank and file up to and including the first
/// piece, which it may take if it is an opponent's.
pub fn gen_rook_moves(square: i8, allied: u64, opponent: u64) -> (moves: u64)
    requires
        0 <= square < 64,
    ensures
        forall|t: int| 0 <= t < 64 ==> (bit(moves, t) == rook_target(square as int, t, allied, opponent)),
{
    let up = walk_ray(square, Direction::Up, allied, opponent);
    let down = walk_ray(square, Direction::Down, allied, opponent);
    let right = walk_ray(square, Direction::Right, allied, opponent);
    let left = walk_ray(square, Direction::Left, allied, opponent);
    let moves = up | down | right | left;
    proof {
        broadcast use group_bit_lemmas;
        assert forall|t: int| 0 <= t < 64 implies (bit(moves, t) == rook_target(square as int, t, allied, opponent)) by {
            lemma_bit_or(up | down | right, left, t);
            lemma_bit_or(up | down, right, t);
            lemma_bit_or(up, down, t);
        }
    }
    moves
}

/// The moves of a bishop on `square`: along each diagonal up to and including the first
/// piece, which it may take if it is an opponent's.
pub fn gen_bishop_moves(square: i8, allied: u64, opponent: u64) -> (moves: u64)
    requires
        0 <= square < 64,
    ensures
        forall|t: int| 0 <= t < 64 ==> (bit(moves, t) == bishop_target(square as int, t, allied, opponent)),
{
    let up_right = walk_ray(square, Direction::UpRight, allied, opponent);
    let down_right = walk_ray(square, Direction::DownRight, allied, opponent);
    let up_left = walk_ray(square, Direction::UpLeft, allied, opponent);
    let down_left = walk_ray(square, Direction::DownLeft, allied, opponent);
    let moves = up_right | down_right | up_left | down_left;
    proof {
        broadcast use group_bit_lemmas;
        assert forall|t: int| 0 <= t < 64 implies (bit(moves, t) == bishop_target(square as int, t, allied, opponent)) by {
            lemma_bit_or(up_right | down_right | up_left, down_left, t);
            lemma_bit_or(up_right | down_right, up_left, t);
            lemma_bit_or(up_right, down_right, t);
        }
    }
    moves
}

/// The moves of a queen on `square`: those of a rook and of a bishop there.
pub fn gen_queen_moves(square: i8, allied: u64, opponent: u64) -> (moves: u64)
    requires
        0 <= square < 64,
    ensures
        forall|t: int| 0 <= t < 64 ==> (bit(moves, t) == (rook_target(square as int, t, allied, opponent)
            || bishop_target(square as int, t, allied, opponent))),
{
    let rook = gen_rook_moves(square, allied, opponent);
    let bishop = gen_bishop_moves(square, allied, opponent);
    proof {
        broadcast use group_bit_lemmas;
    }
    rook | bishop
}

/// The squares that the fill-based rook generator gives for the rooks on `bb`.
pub open spec fn rook_kogge(bb: u64, allied: u64, opponent: u64) -> u64 {
    let free = !(allied | opponent);
    (capture_fill(bb, free, Direction::Up) | capture_fill(bb, free, Direction::Left)
        | capture_fill(bb, free, Direction::Down) | capture_fill(bb, free, Direction::Right)) & !allied
}

/// The squares that the fill-based bishop generator gives for the bishops on `bb`.
pub open spec fn bishop_kogge(bb: u64, allied: u64, opponent: u64) -> u64 {
    let free = !(allied | opponent);
    (capture_fill(bb, free, Direction::UpRight) | capture_fill(bb, free, Direction::UpLeft)
        | capture_fill(bb, free, Direction::DownLeft) | capture_fill(bb, free, Direction::DownRight)) & !allied
}

/// The rook moves of the rooks on `bb`, by four capturing fills.
pub fn gen_rook_moves_kogge(bb: u64, allied: u64, opponent: u64) -> (r: u64)
    ensures
        r == rook_kogge(bb, allied, opponent),
{
    let free = !(allied | opponent);
    let mut next: u64 = fill_up_cap(bb, free);
    next = next | fill_left_cap(bb, free);
    next = next | fill_down_cap(bb, free);
    next = next | fill_right_cap(bb, free);
    next & !allied
}

/// The bishop moves of the bishops on `bb`, by four capturing fills.
pub fn gen_bishop_moves_kogge(bb: u64, allied: u64, opponent: u64) -> (r: u64)
    ensures
        r == bishop_kogge(bb, allied, opponent),
{
    let free = !(allied | opponent);
    let mut next: u64 = fill_up_right_cap(bb, free);
    next = next | fill_up_left_cap(bb, free);
    next = next | fill_down_left_cap(bb, free);
    next = next | fill_down_right_cap(bb, free);
    next & !allied
}

/// For one slider on `s` whose square is allied, in direction `d`: a square one step after
/// the fill, or in the fill, that is not allied is a move of the slider, and every move of
/// the slider is one step after the fill and not allied.
#[verifier::rlimit(50)]
#[verifier::spinoff_prover]
proof fn lemma_direction_fill(s: int, d: Direction, allied: u64, opponent: u64, t: int)
    requires
        0 <= s < 64,
        0 <= t < 64,
        bit(allied, s),
        allied & opponent == 0,
    ensures
        ({
            let fill = occluded_fill(1u64 << (s as u64), !(allied | opponent), d);
            &&& bit(one_step(fill, d), t) && !bit(allied, t) ==> slider_target(s, d, t, allied, opponent)
            &&& bit(fill, t) && !bit(allied, t) ==> slider_target(s, d, t, allied, opponent)
            &&& slider_target(s, d, t, allied, opponent) ==> bit(one_step(fill, d), t) && !bit(allied, t)
        }),
{
    let gen = 1u64 << (s as u64);
    let blocked = allied | opponent;
    let free = !blocked;
    let fill = occluded_fill(gen, free, d);
    assert forall|x: int| 0 <= x < 64 implies #[trigger] bit(free, x) == !bit(blocked, x) by {
        lemma_bit_not(blocked, x);
    }
    assert forall|x: int| 0 <= x < 64 implies #[trigger] bit(gen, x) == (x == s) by {
        lemma_bit_single(s, x);
    }
    lemma_one_step_bit(fill, d, t);
    if bit(one_step(fill, d), t) && !bit(allied, t) {
        let p = t - dir_dx(d) - 8 * dir_dy(d);
        lemma_occluded_fill(gen, free, d, p);
        let (s2, k) = choose|s2: int, k: int| #![trigger free_path(s2, d, k, free)]
            bit(gen, s2) && k <= 7 && free_path(s2, d, k, free) && p == ray_sq(s2, d, k);
        assert(s2 == s);
        lemma_ray_extend(s, d, k, t);
        assert forall|j: int| 1 <= j < k + 1 implies !#[trigger] bit(allied | opponent, ray_sq(s, d, j)) by {
            lemma_ray_prefix(s, d, k, j);
            lemma_ray_coords(s, d, j);
            assert(bit(free, ray_sq(s, d, j)));
        }
        assert(slider_reaches(s, d, t, allied | opponent));
    }
    if bit(fill, t) && !bit(allied, t) {
        lemma_occluded_fill(gen, free, d, t);
        let (s2, k) = choose|s2: int, k: int| #![trigger free_path(s2, d, k, free)]
            bit(gen, s2) && k <= 7 && free_path(s2, d, k, free) && t == ray_sq(s2, d, k);
        assert(s2 == s);
        if k == 0 {
            assert(t == s);
        }
        assert forall|j: int| 1 <= j < k implies !#[trigger] bit(allied | opponent, ray_sq(s, d, j)) by {
            lemma_ray_prefix(s, d, k, j);
            lemma_ray_coords(s, d, j);
            assert(bit(free, ray_sq(s, d, j)));
        }
        assert(slider_reaches(s, d, t, allied | opponent));
    }
    if slider_target(s, d, t, allied, opponent) {
        let k = choose|k: int| #![trigger ray_sq(s, d, k)] 1 <= k && ray_ok(s, d, k) && t == ray_sq(s, d, k)
            && forall|j: int| 1 <= j < k ==> !#[trigger] bit(allied | opponent, ray_sq(s, d, j));
        lemma_bit_and(allied, opponent, t);
        lemma_bit_zero(t);
        lemma_ray_short(s, d, k);
        lemma_ray_next(s, d, k - 1, fill);
        assert forall|j: int| 1 <= j <= k - 1 implies #[trigger] bit(free, ray_sq(s, d, j)) by {
            lemma_ray_prefix(s, d, k, j);
            lemma_ray_coords(s, d, j);
        }
        lemma_ray_coords(s, d, 0);
        assert(free_path(s, d, k - 1, free));
        lemma_ray_coords(s, d, k - 1);
        lemma_occluded_fill(gen, free, d, ray_sq(s, d, k - 1));
        assert(fill_reaches(gen, free, d, 7, ray_sq(s, d, k - 1)));
    }
}

/// For one rook on an allied square, with no square both allied and an opponent's, the
/// fill-based generator gives exactly the moves found by walking the rays.
pub proof fn law_rook_kogge_matches_walk(s: int, allied: u64, opponent: u64)
    requires
        0 <= s < 64,
        bit(allied, s),
        allied & opponent == 0,
    ensures
        forall|t: int| 0 <= t < 64 ==> (bit(rook_kogge(1u64 << (s as u64), allied, opponent), t)
            == rook_target(s, t, allied, opponent)),
{
    let gen = 1u64 << (s as u64);
    let free = !(allied | opponent);
    assert forall|t: int| 0 <= t < 64 implies (bit(rook_kogge(gen, allied, opponent), t)
        == rook_target(s, t, allied, opponent)) by {
        broadcast use group_bit_lemmas;
        lemma_direction_fill(s, Direction::Up, allied, opponent, t);
        lemma_direction_fill(s, Direction::Down, allied, opponent, t);
        lemma_direction_fill(s, Direction::Left, allied, opponent, t);
        lemma_direction_fill(s, Direction::Right, allied, opponent, t);
    }
}

/// For one bishop on an allied square, with no square both allied and an opponent's, the
/// fill-based generator gives exactly the moves found by walking the diagonals.
pub proof fn law_bishop_kogge_matches_walk(s: int, allied: u64, opponent: u64)
    requires
        0 <= s < 64,
        bit(allied, s),
        allied & opponent == 0,
    ensures
        forall|t: int| 0 <= t < 64 ==> (bit(bishop_kogge(1u64 << (s as u64), allied, opponent), t)
            == bishop_target(s, t, allied, opponent)),
{
    let gen = 1u64 << (s as u64);
    let free = !(allied | opponent);
    assert forall|t: int| 0 <= t < 64 implies (bit(bishop_kogge(gen, allied, opponent), t)
        == bishop_target(s, t, allied, opponent)) by {
        broadcast use group_bit_lemmas;
        lemma_direction_fill(s, Direction::UpRight, allied, opponent, t);
        lemma_direction_fill(s, Direction::UpLeft, allied, opponent, t);
        lemma_direction_fill(s, Direction::DownLeft, allied, opponent, t);
        lemma_direction_fill(s, Direction::DownRight, allied, opponent, t);
    }
}

/// Gathers the squares of `value` that lie on `mask` into the low bits, in the order of the
/// mask's squares (bitintr's `Pext::pext`, the PEXT instruction where BMI2 is there). Without
/// BMI2 bitintr loops once per mask square and doubles a `u64` each time, which overflows on a
/// full mask, so the mask must leave a square out.
#[verifier::external_body]
pub fn order_bits(value: u64, mask: u64) -> (r: u64)
    requires
        set_squares(mask).len() < 64,
    ensures
        forall|i: int| 0 <= i < 64 ==> #[trigger] bit(r, i) == (i < set_squares(mask).len() && bit(value, set_squares(mask)[i])),
{
    bitintr::Pext::pext(value, mask)
}

/// Spreads the low bits of `value` over the squares of `mask`, in the order of the mask's
/// squares (bitintr's `Pdep::pdep`, the PDEP instruction where BMI2 is there). As for
/// `order_bits`, bitintr's loop without BMI2 overflows on a full mask.
#[verifier::external_body]
fn deposit_bits(value: u64, mask: u64) -> (r: u64)
    requires
        set_squares(mask).len() < 64,
    ensures
        forall|i: int| 0 <= i < set_squares(mask).len() ==> #[trigger] bit(r, set_squares(mask)[i]) == bit(value, i),
        forall|t: int| #[trigger] bit(r, t) ==> bit(mask, t),
{
    bitintr::Pdep::pdep(value, mask)
}

/// `t` is a move of a rook (`rook`) or bishop on `s` when the pieces on `blockers` stand in
/// its way, all of them capturable.
pub open spec fn table_target(rook: bool, s: int, t: int, blockers: u64) -> bool {
    if rook {
        rook_target(s, t, 0, blockers)
    } else {
        bishop_target(s, t, 0, blockers)
    }
}

/// `t` can block a rook (`rook`) or bishop on `s`.
pub open spec fn blocker_square(rook: bool, s: int, t: int) -> bool {
    if rook {
        rook_blocker(s, t)
    } else {
        bishop_blocker(s, t)
    }
}

/// `mask` holds exactly the squares that can block a rook (`rook`) or bishop on `s`.
pub open spec fn mask_ok(rook: bool, s: int, mask: u64) -> bool {
    forall|t: int| 0 <= t < 64 ==> #[trigger] bit(mask, t) == blocker_square(rook, s, t)
}

/// The blocker mask of a rook (`rook`) or bishop on `s`.
pub open spec fn blocker_mask(rook: bool, s: int) -> u64 {
    choose|m: u64| mask_ok(rook, s, m)
}

/// `b` is the blocker set that `index` stands for: its squares lie on `mask`, and the `j`-th
/// square of the mask is in it when bit `j` of the index is set.
pub open spec fn indexed_blockers(b: u64, mask: u64, index: u64) -> bool {
    &&& forall|t: int| #[trigger] bit(b, t) ==> bit(mask, t)
    &&& forall|j: int| 0 <= j < set_squares(mask).len() ==> #[trigger] bit(b, set_squares(mask)[j]) == bit(index, j)
}

/// The entry for `index` holds the moves of the slider on `s` for the blocker set of `index`.
pub open spec fn entry_ok(rook: bool, s: int, mask: u64, index: u64, entry: u64) -> bool {
    exists|b: u64| #[trigger] indexed_blockers(b, mask, index)
        && forall|t: int| 0 <= t < 64 ==> bit(entry, t) == table_target(rook, s, t, b)
}

/// A move table of a rook (`rook`) or bishop: for each square, one entry per subset of its
/// blocker mask, indexed by the gathered bits of the subset.
pub open spec fn move_table_ok(rook: bool, table: Seq<Vec<u64>>) -> bool {
    &&& table.len() == 64
    &&& forall|s: int| 0 <= s < 64 ==> #[trigger] table[s]@.len() == pow2(set_squares(blocker_mask(rook, s)).len())
    &&& forall|s: int, i: int| 0 <= s < 64 && 0 <= i < table[s]@.len() ==>
        entry_ok(rook, s, blocker_mask(rook, s), i as u64, #[trigger] table[s]@[i])
}

/// A number is below `2^n` exactly when none of its bits from `n` on is set.
proof fn lemma_below_pow2(x: u64, n: int)
    requires
        0 <= n < 64,
    ensures
        (x < pow2(n as nat)) == (forall|j: int| n <= j < 64 ==> !#[trigger] bit(x, j)),
{
    vstd::bits::lemma_u64_shr_is_div(x, n as u64);
    vstd::arithmetic::power2::lemma_pow2_pos(n as nat);
    let d = pow2(n as nat) as int;
    vstd::arithmetic::div_mod::lemma_fundamental_div_mod(x as int, d);
    let y = x >> (n as u64);
    if forall|j: int| n <= j < 64 ==> !#[trigger] bit(x, j) {
        assert forall|u: int| 0 <= u < 64 implies bit(y, u) == bit(0u64, u) by {
            lemma_bit_shr(x, n as u64, u);
            lemma_bit_zero(u);
            if u + n < 64 {
                assert(!bit(x, u + n));
            }
        }
        lemma_bits_ext(y, 0u64);
        assert(x as int / d == 0);
    }
    if x < pow2(n as nat) {
        vstd::arithmetic::div_mod::lemma_basic_div(x as int, d);
        assert forall|j: int| n <= j < 64 implies !#[trigger] bit(x, j) by {
            lemma_bit_shr(x, n as u64, j - n);
            lemma_bit_zero(j - n);
        }
    }
}

/// The a1 corner never blocks a slider, so a blocker mask has fewer than 64 squares.
proof fn lemma_blocker_mask_short(rook: bool, s: int, mask: u64)
    requires
        0 <= s < 64,
        mask_ok(rook, s, mask),
    ensures
        set_squares(mask).len() < 64,
{
    assert(!bit(mask, 0));
    lemma_set_squares_short(mask, 0);
}

/// A mask with the right squares is the blocker mask.
proof fn lemma_blocker_mask_is(rook: bool, s: int, mask: u64)
    requires
        mask_ok(rook, s, mask),
    ensures
        blocker_mask(rook, s) == mask,
{
    let m = blocker_mask(rook, s);
    assert(mask_ok(rook, s, m));
    lemma_bits_ext(m, mask);
}

/// The move table of one slider kind, built from its blocker masks.
fn gen_move_table(rook: bool, masks: &[u64; 64]) -> (r: Vec<Vec<u64>>)
    requires
        forall|s: int| 0 <= s < 64 ==> mask_ok(rook, s, #[trigger] masks@[s]),
    ensures
        move_table_ok(rook, r@),
{
    let mut ret: Vec<Vec<u64>> = Vec::new();
    let mut s: i8 = 0;
    while s < 64
        invariant
            0 <= s <= 64,
            ret@.len() == s,
            forall|x: int| 0 <= x < 64 ==> mask_ok(rook, x, #[trigger] masks@[x]),
            forall|x: int| 0 <= x < s ==> #[trigger] ret@[x]@.len() == pow2(set_squares(blocker_mask(rook, x)).len()),
            forall|x: int, i: int| 0 <= x < s && 0 <= i < ret@[x]@.len() ==>
                entry_ok(rook, x, blocker_mask(rook, x), i as u64, #[trigger] ret@[x]@[i]),
        decreases 64 - s,
    {
        let mask = masks[s as usize];
        let ghost n = set_squares(mask).len();
        assert(mask_ok(rook, s as int, masks@[s as int]));
        let bit_count = count_bits(mask);
        proof {
            lemma_set_squares_len(mask);
            lemma_blocker_mask_short(rook, s as int, mask);
            lemma_blocker_mask_is(rook, s as int, mask);
            vstd::bits::lemma_u64_pow2_no_overflow(n);
            vstd::bits::lemma_u64_shl_is_mul(1u64, bit_count as u64);
        }
        let size: u64 = 1u64 << (bit_count as u64);
        let mut move_set: Vec<u64> = Vec::new();
        let mut index: u64 = 0;
        while index < size
            invariant
                0 <= s < 64,
                n == set_squares(mask).len(),
                n < 64,
                mask == blocker_mask(rook, s as int),
                mask_ok(rook, s as int, mask),
                size == pow2(n),
                index <= size,
                move_set@.len() == index,
                forall|i: int| 0 <= i < index ==> entry_ok(rook, s as int, mask, i as u64, #[trigger] move_set@[i]),
            decreases size - index,
        {
            let blocker = deposit_bits(index, mask);
            let idx = order_bits(blocker, mask);
            proof {
                lemma_below_pow2(index, n as int);
                assert forall|j: int| 0 <= j < 64 implies bit(idx, j) == bit(index, j) by {
                    if j >= n {
                        assert(!bit(index, j));
                    }
                }
                lemma_bits_ext(idx, index);
            }
            assert(idx == index);
            let moves = if rook {
                gen_rook_moves(s, 0, blocker)
            } else {
                gen_bishop_moves(s, 0, blocker)
            };
            proof {
                assert(indexed_blockers(blocker, mask, index));
            }
            move_set.push(moves);
            index = index + 1;
        }
        ret.push(move_set);
        s = s + 1;
    }
    ret
}

/// The rook move table: for each square, the moves for every subset of its blocker mask.
pub fn gen_rook_move_table() -> (r: Vec<Vec<u64>>)
    ensures
        move_table_ok(true, r@),
{
    let masks = gen_rook_blocker_mask();
    gen_move_table(true, &masks)
}

/// The bishop move table: for each square, the moves for every subset of its blocker mask.
pub fn gen_bishop_move_table() -> (r: Vec<Vec<u64>>)
    ensures
        move_table_ok(false, r@),
{
    let masks = gen_bishop_blocker_mask();
    gen_move_table(false, &masks)
}

/// The blocker masks and move tables that the table-based slider generators read.
pub struct SliderTables {
    rook_masks: [u64; 64],
    bishop_masks: [u64; 64],
    rook_moves: Vec<Vec<u64>>,
    bishop_moves: Vec<Vec<u64>>,
}

impl SliderTables {
    /// The masks are the blocker masks and the tables hold the moves for every blocker set.
    pub closed spec fn wf(&self) -> bool {
        &&& forall|s: int| 0 <= s < 64 ==> #[trigger] self.rook_masks@[s] == blocker_mask(true, s)
            && mask_ok(true, s, self.rook_masks@[s])
        &&& forall|s: int| 0 <= s < 64 ==> #[trigger] self.bishop_masks@[s] == blocker_mask(false, s)
            && mask_ok(false, s, self.bishop_masks@[s])
        &&& move_table_ok(true, self.rook_moves@)
        &&& move_table_ok(false, self.bishop_moves@)
    }

    /// Builds the masks and tables of both slider kinds.
    pub fn new() -> (r: SliderTables)
        ensures
            r.wf(),
    {
        let rook_masks = gen_rook_blocker_mask();
        let bishop_masks = gen_bishop_blocker_mask();
        let rook_moves = gen_move_table(true, &rook_masks);
        let bishop_moves = gen_move_table(false, &bishop_masks);
        proof {
            assert forall|s: int| 0 <= s < 64 implies #[trigger] rook_masks@[s] == blocker_mask(true, s)
                && mask_ok(true, s, rook_masks@[s]) by {
                assert(mask_ok(true, s, rook_masks@[s]));
                lemma_blocker_mask_is(true, s, rook_masks@[s]);
            }
            assert forall|s: int| 0 <= s < 64 implies #[trigger] bishop_masks@[s] == blocker_mask(false, s)
                && mask_ok(false, s, bishop_masks@[s]) by {
                assert(mask_ok(false, s, bishop_masks@[s]));
                lemma_blocker_mask_is(false, s, bishop_masks@[s]);
            }
        }
        SliderTables { rook_masks, bishop_masks, rook_moves, bishop_moves }
    }

    /// The table entry of the slider on `square` for the pieces on `occupied`: the moves when
    /// the pieces on its blocker mask stand in its way.
    fn lookup(&self, rook: bool, square: i8, occupied: u64) -> (r: u64)
        requires
            self.wf(),
            0 <= square < 64,
        ensures
            forall|t: int| 0 <= t < 64 ==> bit(r, t) == table_target(rook, square as int, t,
                occupied & blocker_mask(rook, square as int)),
    {
        let s = square as usize;
        let mask = if rook {
            self.rook_masks[s]
        } else {
            self.bishop_masks[s]
        };
        proof {
            assert(mask == blocker_mask(rook, square as int));
            lemma_blocker_mask_short(rook, square as int, mask);
        }
        let index = order_bits(occupied, mask);
        let ghost table = if rook {
            self.rook_moves@
        } else {
            self.bishop_moves@
        };
        let ghost n = set_squares(mask).len();
        proof {
            let m = blocker_mask(rook, square as int);
            assert(mask == m);
            assert(mask_ok(rook, square as int, mask));
            lemma_blocker_mask_short(rook, square as int, mask);
            assert(table[square as int]@.len() == pow2(n));
            lemma_below_pow2(index, n as int);
        }
        let row = if rook {
            &self.rook_moves[s]
        } else {
            &self.bishop_moves[s]
        };
        assert(row@ == table[square as int]@);
        let len = row.len();
        assert(index < len);
        let i = index as usize;
        assert(i == index);
        let r = row[i];
        proof {
            let occ = occupied & mask;
            assert(r == table[square as int]@[index as int]);
            assert(entry_ok(rook, square as int, blocker_mask(rook, square as int), (index as int) as u64,
                table[square as int]@[index as int]));
            assert(entry_ok(rook, square as int, mask, index, r));
            let b = choose|b: u64| #[trigger] indexed_blockers(b, mask, index)
                && forall|t: int| 0 <= t < 64 ==> bit(r, t) == table_target(rook, square as int, t, b);
            lemma_set_squares_are_set(mask);
            assert forall|t: int| 0 <= t < 64 implies bit(b, t) == bit(occ, t) by {
                lemma_bit_and(occupied, mask, t);
                if bit(mask, t) {
                    lemma_set_squares_has(mask, t);
                    let j = choose|j: int| 0 <= j < set_squares(mask).len() && set_squares(mask)[j] == t;
                    assert(bit(b, set_squares(mask)[j]) == bit(index, j));
                }
            }
            lemma_bits_ext(b, occ);
        }
        r
    }
}

/// The rook moves from `square` read from the move table: the moves when the pieces of
/// `occupied` on its blocker mask stand in its way, all of them capturable.
pub fn gen_rook_moves_pext(tables: &SliderTables, square: i8, occupied: u64) -> (r: u64)
    requires
        tables.wf(),
        0 <= square < 64,
    ensures
        forall|t: int| 0 <= t < 64 ==> bit(r, t) == rook_target(square as int, t, 0,
            occupied & blocker_mask(true, square as int)),
{
    tables.lookup(true, square, occupied)
}

/// The bishop moves from `square` read from the move table: the moves when the pieces of
/// `occupied` on its blocker mask stand in its way, all of them capturable.
pub fn gen_bishop_moves_pext(tables: &SliderTables, square: i8, occupied: u64) -> (r: u64)
    requires
        tables.wf(),
        0 <= square < 64,
    ensures
        forall|t: int| 0 <= t < 64 ==> bit(r, t) == bishop_target(square as int, t, 0,
            occupied & blocker_mask(false, square as int)),
{
    tables.lookup(false, square, occupied)
}

/// The directions in which a rook (`rook`) or bishop moves.
pub open spec fn kind_direction(rook: bool, d: Direction) -> bool {
    if rook {
        d == Direction::Up || d == Direction::Down || d == Direction::Right || d == Direction::Left
    } else {
        d == Direction::UpRight || d == Direction::UpLeft || d == Direction::DownRight || d == Direction::DownLeft
    }
}

/// A square strictly inside a ray of the slider's kind is on its blocker mask.
proof fn lemma_inner_is_blocker(rook: bool, s: int, d: Direction, j: int, k: int)
    requires
        kind_direction(rook, d),
        1 <= j < k,
        ray_ok(s, d, k),
    ensures
        blocker_square(rook, s, ray_sq(s, d, j)),
{
    lemma_ray_prefix(s, d, k, j);
    lemma_ray_coords(s, d, j);
    lemma_ray_coords(s, d, 0);
}

/// Only the pieces on the blocker mask decide where a slider of that kind may go.
proof fn lemma_masked_reach(rook: bool, s: int, d: Direction, occupied: u64, mask: u64, t: int)
    requires
        kind_direction(rook, d),
        0 <= s < 64,
        mask_ok(rook, s, mask),
    ensures
        slider_reaches(s, d, t, 0u64 | (occupied & mask)) == slider_reaches(s, d, t, occupied),
{
    let b = 0u64 | (occupied & mask);
    assert forall|x: int| 0 <= x < 64 implies #[trigger] bit(b, x) == (bit(occupied, x) && bit(mask, x)) by {
        lemma_bit_or(0u64, occupied & mask, x);
        lemma_bit_and(occupied, mask, x);
        lemma_bit_zero(x);
    }
    if slider_reaches(s, d, t, b) {
        let k = choose|k: int| #![trigger ray_sq(s, d, k)] 1 <= k && ray_ok(s, d, k) && t == ray_sq(s, d, k)
            && forall|j: int| 1 <= j < k ==> !#[trigger] bit(b, ray_sq(s, d, j));
        assert forall|j: int| 1 <= j < k implies !#[trigger] bit(occupied, ray_sq(s, d, j)) by {
            lemma_inner_is_blocker(rook, s, d, j, k);
            lemma_ray_prefix(s, d, k, j);
            lemma_ray_coords(s, d, j);
            assert(!bit(b, ray_sq(s, d, j)));
        }
        assert(slider_reaches(s, d, t, occupied));
    }
    if slider_reaches(s, d, t, occupied) {
        let k = choose|k: int| #![trigger ray_sq(s, d, k)] 1 <= k && ray_ok(s, d, k) && t == ray_sq(s, d, k)
            && forall|j: int| 1 <= j < k ==> !#[trigger] bit(occupied, ray_sq(s, d, j));
        assert forall|j: int| 1 <= j < k implies !#[trigger] bit(b, ray_sq(s, d, j)) by {
            lemma_ray_prefix(s, d, k, j);
            lemma_ray_coords(s, d, j);
            assert(!bit(occupied, ray_sq(s, d, j)));
        }
        assert(slider_reaches(s, d, t, b));
    }
}

/// At one square: the masked lookup less the allied squares agrees with walking the rays.
proof fn lemma_masked_walk_at(rook: bool, s: int, allied: u64, opponent: u64, mask: u64, t: int)
    requires
        0 <= s < 64,
        0 <= t < 64,
        allied & opponent == 0,
        mask_ok(rook, s, mask),
    ensures
        rook ==> ((rook_target(s, t, 0, (allied | opponent) & mask) && !bit(allied, t))
            == rook_target(s, t, allied, opponent)),
        !rook ==> ((bishop_target(s, t, 0, (allied | opponent) & mask) && !bit(allied, t))
            == bishop_target(s, t, allied, opponent)),
{
    lemma_bit_zero(t);
    lemma_bit_and(allied, opponent, t);
    if rook {
        lemma_masked_reach(rook, s, Direction::Up, allied | opponent, mask, t);
        lemma_masked_reach(rook, s, Direction::Down, allied | opponent, mask, t);
        lemma_masked_reach(rook, s, Direction::Right, allied | opponent, mask, t);
        lemma_masked_reach(rook, s, Direction::Left, allied | opponent, mask, t);
    } else {
        lemma_masked_reach(rook, s, Direction::UpRight, allied | opponent, mask, t);
        lemma_masked_reach(rook, s, Direction::UpLeft, allied | opponent, mask, t);
        lemma_masked_reach(rook, s, Direction::DownRight, allied | opponent, mask, t);
        lemma_masked_reach(rook, s, Direction::DownLeft, allied | opponent, mask, t);
    }
}

/// With no square both allied and an opponent's, the table lookup on the occupied squares,
/// less the allied squares, gives exactly the rook moves found by walking the rays.
pub proof fn law_rook_pext_matches_walk(tables: &SliderTables, s: int, allied: u64, opponent: u64)
    requires
        tables.wf(),
        0 <= s < 64,
        allied & opponent == 0,
    ensures
        forall|t: int| #![trigger rook_target(s, t, allied, opponent)] 0 <= t < 64 ==> ((rook_target(s, t, 0, (allied | opponent) & blocker_mask(true, s))
            && !bit(allied, t)) == rook_target(s, t, allied, opponent)),
{
    assert(mask_ok(true, s, tables.rook_masks@[s]));
    assert forall|t: int| #![trigger rook_target(s, t, allied, opponent)] 0 <= t < 64 implies ((rook_target(s, t, 0, (allied | opponent) & blocker_mask(true, s))
        && !bit(allied, t)) == rook_target(s, t, allied, opponent)) by {
        lemma_masked_walk_at(true, s, allied, opponent, blocker_mask(true, s), t);
    }
}

/// With no square both allied and an opponent's, the table lookup on the occupied squares,
/// less the allied squares, gives exactly the bishop moves found by walking the diagonals.
pub proof fn law_bishop_pext_matches_walk(tables: &SliderTables, s: int, allied: u64, opponent: u64)
    requires
        tables.wf(),
        0 <= s < 64,
        allied & opponent == 0,
    ensures
        forall|t: int| #![trigger bishop_target(s, t, allied, opponent)] 0 <= t < 64 ==> ((bishop_target(s, t, 0, (allied | opponent) & blocker_mask(false, s))
            && !bit(allied, t)) == bishop_target(s, t, allied, opponent)),
{
    assert(mask_ok(false, s, tables.bishop_masks@[s]));
    assert forall|t: int| #![trigger bishop_target(s, t, allied, opponent)] 0 <= t < 64 implies ((bishop_target(s, t, 0, (allied | opponent) & blocker_mask(false, s))
        && !bit(allied, t)) == bishop_target(s, t, allied, opponent)) by {
        lemma_masked_walk_at(false, s, allied, opponent, blocker_mask(false, s), t);
    }
}

/// A square of a free run is free.
proof fn lemma_free_run_free(free: u64, d: Direction, t: int)
    requires
        0 <= t < 64,
    ensures
        bit(free_run(free, d), t) ==> bit(free, t),
{
    let m = arrival_free(free, d);
    let f1 = m & one_step(m, d);
    lemma_bit_and(f1 & one_step(f1, d), one_step(one_step(f1, d), d), t);
    lemma_bit_and(f1, one_step(f1, d), t);
    lemma_bit_and(m, one_step(m, d), t);
    lemma_bit_and(free, 0xfefe_fefe_fefe_fefeu64, t);
    lemma_bit_and(free, 0x7f7f_7f7f_7f7f_7f7fu64, t);
}

/// Some slider of `gen` reaches `t` in direction `d` past the pieces of `occupied`.
pub open spec fn reached_by(gen: u64, d: Direction, t: int, occupied: u64) -> bool {
    exists|a: int| 0 <= a < 64 && bit(gen, a) && #[trigger] slider_reaches(a, d, t, occupied)
}

/// For sliders on `gen`, all on occupied squares, in direction `d`: a square one step after
/// the fill, or a filled square that holds no slider, is reached by one of them; and every
/// square one of them reaches is one step after the fill.
#[verifier::rlimit(50)]
#[verifier::spinoff_prover]
proof fn lemma_direction_attacks(gen: u64, d: Direction, occupied: u64, t: int)
    requires
        0 <= t < 64,
        forall|a: int| 0 <= a < 64 && #[trigger] bit(gen, a) ==> bit(occupied, a),
    ensures
        ({
            let fill = occluded_fill(gen, !occupied, d);
            &&& bit(one_step(fill, d), t) ==> reached_by(gen, d, t, occupied)
            &&& bit(fill, t) && !bit(gen, t) ==> reached_by(gen, d, t, occupied)
            &&& reached_by(gen, d, t, occupied) ==> bit(one_step(fill, d), t)
        }),
{
    let free = !occupied;
    let fill = occluded_fill(gen, free, d);
    assert forall|x: int| 0 <= x < 64 implies #[trigger] bit(free, x) == !bit(occupied, x) by {
        lemma_bit_not(occupied, x);
    }
    lemma_one_step_bit(fill, d, t);
    if bit(one_step(fill, d), t) {
        let p = t - dir_dx(d) - 8 * dir_dy(d);
        lemma_occluded_fill(gen, free, d, p);
        let (a, k) = choose|a: int, k: int| #![trigger free_path(a, d, k, free)]
            bit(gen, a) && k <= 7 && free_path(a, d, k, free) && p == ray_sq(a, d, k);
        lemma_ray_extend(a, d, k, t);
        assert forall|j: int| 1 <= j < k + 1 implies !#[trigger] bit(occupied, ray_sq(a, d, j)) by {
            lemma_ray_prefix(a, d, k, j);
            lemma_ray_coords(a, d, j);
            assert(bit(free, ray_sq(a, d, j)));
        }
        assert(slider_reaches(a, d, t, occupied));
    }
    if bit(fill, t) && !bit(gen, t) {
        lemma_occluded_fill(gen, free, d, t);
        let (a, k) = choose|a: int, k: int| #![trigger free_path(a, d, k, free)]
            bit(gen, a) && k <= 7 && free_path(a, d, k, free) && t == ray_sq(a, d, k);
        if k == 0 {
            assert(t == a);
        }
        assert forall|j: int| 1 <= j < k implies !#[trigger] bit(occupied, ray_sq(a, d, j)) by {
            lemma_ray_prefix(a, d, k, j);
            lemma_ray_coords(a, d, j);
            assert(bit(free, ray_sq(a, d, j)));
        }
        assert(slider_reaches(a, d, t, occupied));
    }
    if reached_by(gen, d, t, occupied) {
        let a = choose|a: int| 0 <= a < 64 && bit(gen, a) && #[trigger] slider_reaches(a, d, t, occupied);
        let k = choose|k: int| #![trigger ray_sq(a, d, k)] 1 <= k && ray_ok(a, d, k) && t == ray_sq(a, d, k)
            && forall|j: int| 1 <= j < k ==> !#[trigger] bit(occupied, ray_sq(a, d, j));
        lemma_ray_short(a, d, k);
        lemma_ray_next(a, d, k - 1, fill);
        assert forall|j: int| 1 <= j <= k - 1 implies #[trigger] bit(free, ray_sq(a, d, j)) by {
            lemma_ray_prefix(a, d, k, j);
            lemma_ray_coords(a, d, j);
        }
        lemma_ray_coords(a, d, 0);
        assert(free_path(a, d, k - 1, free));
        lemma_ray_coords(a, d, k - 1);
        lemma_occluded_fill(gen, free, d, ray_sq(a, d, k - 1));
        assert(fill_reaches(gen, free, d, 7, ray_sq(a, d, k - 1)));
    }
}

/// `0 | b` is `b`.
pub(crate) proof fn lemma_zero_or(b: u64)
    ensures
        0u64 | b == b,
{
    assert forall|t: int| 0 <= t < 64 implies bit(0u64 | b, t) == bit(b, t) by {
        lemma_bit_or(0u64, b, t);
        lemma_bit_zero(t);
    }
    lemma_bits_ext(0u64 | b, b);
}

/// The squares that the rooks on `gen`, all on occupied squares, attack: the fill-based
/// generator with no allied pieces gives exactly the squares that one of them reaches.
pub proof fn lemma_rook_kogge_attacks(gen: u64, occupied: u64, t: int)
    requires
        0 <= t < 64,
        forall|a: int| 0 <= a < 64 && #[trigger] bit(gen, a) ==> bit(occupied, a),
    ensures
        bit(rook_kogge(gen, 0, occupied), t) == exists|a: int| 0 <= a < 64 && bit(gen, a)
            && #[trigger] rook_target(a, t, 0, occupied),
{
    let free = !(0u64 | occupied);
    lemma_zero_or(occupied);
    broadcast use group_bit_lemmas;
    lemma_bit_not(0u64, t);
    lemma_bit_zero(t);
    lemma_direction_attacks(gen, Direction::Up, occupied, t);
    lemma_direction_attacks(gen, Direction::Down, occupied, t);
    lemma_direction_attacks(gen, Direction::Left, occupied, t);
    lemma_direction_attacks(gen, Direction::Right, occupied, t);
    lemma_free_run_free(free, Direction::Up, t);
    lemma_free_run_free(free, Direction::Down, t);
    lemma_free_run_free(free, Direction::Left, t);
    lemma_free_run_free(free, Direction::Right, t);
    lemma_bit_not(occupied, t);
    if exists|a: int| 0 <= a < 64 && bit(gen, a) && #[trigger] rook_target(a, t, 0, occupied) {
        let a = choose|a: int| 0 <= a < 64 && bit(gen, a) && #[trigger] rook_target(a, t, 0, occupied);
        if slider_reaches(a, Direction::Up, t, occupied) {
            assert(reached_by(gen, Direction::Up, t, occupied));
        } else if slider_reaches(a, Direction::Down, t, occupied) {
            assert(reached_by(gen, Direction::Down, t, occupied));
        } else if slider_reaches(a, Direction::Left, t, occupied) {
            assert(reached_by(gen, Direction::Left, t, occupied));
        } else {
            assert(reached_by(gen, Direction::Right, t, occupied));
        }
    }
    if bit(rook_kogge(gen, 0, occupied), t) {
        let d = if bit(capture_fill(gen, free, Direction::Up), t) {
            Direction::Up
        } else if bit(capture_fill(gen, free, Direction::Down), t) {
            Direction::Down
        } else if bit(capture_fill(gen, free, Direction::Left), t) {
            Direction::Left
        } else {
            Direction::Right
        };
        if bit(gen, t) {
            assert(bit(occupied, t));
        }
        let a = choose|a: int| 0 <= a < 64 && bit(gen, a) && #[trigger] slider_reaches(a, d, t, occupied);
        assert(rook_target(a, t, 0, occupied));
    }
}

/// The squares that the bishops on `gen`, all on occupied squares, attack, as the fill-based
/// generator with no allied pieces gives them: the squares that one of them reaches.
pub proof fn lemma_bishop_kogge_attacks(gen: u64, occupied: u64, t: int)
    requires
        0 <= t < 64,
        forall|a: int| 0 <= a < 64 && #[trigger] bit(gen, a) ==> bit(occupied, a),
    ensures
        bit(bishop_kogge(gen, 0, occupied), t) == exists|a: int| 0 <= a < 64 && bit(gen, a)
            && #[trigger] bishop_target(a, t, 0, occupied),
{
    let free = !(0u64 | occupied);
    lemma_zero_or(occupied);
    broadcast use group_bit_lemmas;
    lemma_bit_not(0u64, t);
    lemma_bit_zero(t);
    lemma_direction_attacks(gen, Direction::UpRight, occupied, t);
    lemma_direction_attacks(gen, Direction::UpLeft, occupied, t);
    lemma_direction_attacks(gen, Direction::DownLeft, occupied, t);
    lemma_direction_attacks(gen, Direction::DownRight, occupied, t);
    lemma_free_run_free(free, Direction::UpRight, t);
    lemma_free_run_free(free, Direction::UpLeft, t);
    lemma_free_run_free(free, Direction::DownLeft, t);
    lemma_free_run_free(free, Direction::DownRight, t);
    lemma_bit_not(occupied, t);
    if exists|a: int| 0 <= a < 64 && bit(gen, a) && #[trigger] bishop_target(a, t, 0, occupied) {
        let a = choose|a: int| 0 <= a < 64 && bit(gen, a) && #[trigger] bishop_target(a, t, 0, occupied);
        if slider_reaches(a, Direction::UpRight, t, occupied) {
            assert(reached_by(gen, Direction::UpRight, t, occupied));
        } else if slider_reaches(a, Direction::UpLeft, t, occupied) {
            assert(reached_by(gen, Direction::UpLeft, t, occupied));
        } else if slider_reaches(a, Direction::DownLeft, t, occupied) {
            assert(reached_by(gen, Direction::DownLeft, t, occupied));
        } else {
            assert(reached_by(gen, Direction::DownRight, t, occupied));
        }
    }
    if bit(bishop_kogge(gen, 0, occupied), t) {
        let d = if bit(capture_fill(gen, free, Direction::UpRight), t) {
            Direction::UpRight
        } else if bit(capture_fill(gen, free, Direction::UpLeft), t) {
            Direction::UpLeft
        } else if bit(capture_fill(gen, free, Direction::DownLeft), t) {
            Direction::DownLeft
        } else {
            Direction::DownRight
        };
        let a = choose|a: int| 0 <= a < 64 && bit(gen, a) && #[trigger] slider_reaches(a, d, t, occupied);
        assert(bishop_target(a, t, 0, occupied));
    }
}

} // verus!
