use vstd::prelude::*;
use crate::board::bit_array::{bit, has_squares, lemma_bit_full, lemma_bits_ext, lemma_mask_of_exists, lemma_bit_and, lemma_bit_not, lemma_bit_or, lemma_bit_zero};
use crate::board::bit_board::{attacked_by, attacked_through_king, attacks_from, occupied_through_king, path_clear, without_king, BitBoard};
use crate::board::piece_type::{color_of, colored_piece, piece_type_of, ColoredPieceType, PieceType};
use crate::moves::check_pin_mask::{
    check_square, diagonal_attacker, knight_checker, nothing_between, one_between, orthogonal_attacker, pawn_checker,
    slider_checker, toward,
};
use crate::game::playable_moves::sound_move;
use crate::moves::chess_move::{is_castle_spec, is_en_passant_spec};
use crate::board::bit_board::{king_of, king_square};
use crate::board::dynamic_state::{after_move, castle_rook_squares};
use crate::game::playable_moves::{flags_fit, king_home, lemma_castle_blockers, lemma_king_square_unique};
use crate::game::game_flags::GameFlags;
use crate::moves::chess_move::ChessMove;
use crate::moves::move_gen::{attacked_mask, check_mask, has_king, legal_masks_spec, lemma_shifted_bits, shifted};
use crate::moves::pseudo_move_gen::{in_check_spec, king_castle_open, leaves_king_safe, queen_castle_open};
use crate::board::player_color::{other, PlayerColor};
use crate::board::bit_array_lookup::{between, diagonal_line, file_diff, king_step, knight_step, orthogonal_line, pawn_attack, rank_diff};
use crate::board::square::{file_of, rank_of, valid_square};
use crate::moves::kogge_gen::{
    dir_dx, dir_dy, lemma_ray_coords, lemma_ray_prefix, ray_ok, ray_sq, slider_reaches, Direction,
};
use crate::moves::slider_gen::{bishop_target, lemma_zero_or, rook_target, slider_target};

verus! {

/// Direction `d` runs along a diagonal.
pub open spec fn diagonal_direction(d: Direction) -> bool {
    dir_dx(d) != 0 && dir_dy(d) != 0
}

/// The `j`-th square of a ray lies strictly between its start and its `k`-th square, and
/// the `k`-th square lies on a diagonal or a line through the start, as the direction is.
proof fn lemma_ray_between(s: int, d: Direction, k: int, j: int)
    requires
        1 <= k,
        ray_ok(s, d, k),
    ensures
        diagonal_direction(d) ==> diagonal_line(s, ray_sq(s, d, k)),
        !diagonal_direction(d) ==> orthogonal_line(s, ray_sq(s, d, k)),
        1 <= j < k ==> between(s, ray_sq(s, d, k), ray_sq(s, d, j)),
{
    lemma_ray_coords(s, d, k);
    lemma_ray_coords(s, d, 0);
    if 1 <= j < k {
        lemma_ray_prefix(s, d, k, j);
        lemma_ray_coords(s, d, j);
    }
}

/// A square strictly between the start of a ray and its `k`-th square is one of the ray's
/// squares before the `k`-th.
proof fn lemma_between_on_ray(s: int, d: Direction, k: int, u: int) -> (j: int)
    requires
        1 <= k,
        ray_ok(s, d, k),
        between(s, ray_sq(s, d, k), u),
    ensures
        1 <= j < k,
        ray_ok(s, d, j),
        u == ray_sq(s, d, j),
{
    lemma_ray_coords(s, d, k);
    lemma_ray_coords(s, d, 0);
    let j = if dir_dx(d) != 0 {
        if dir_dx(d) > 0 { file_diff(s, u) } else { -file_diff(s, u) }
    } else {
        if dir_dy(d) > 0 { rank_diff(s, u) } else { -rank_diff(s, u) }
    };
    lemma_ray_prefix(s, d, k, j);
    lemma_ray_coords(s, d, j);
    assert(u == 8 * rank_of(u) + file_of(u));
    j
}

/// A square on a diagonal through `s` is on a diagonal ray from `s`.
proof fn lemma_diagonal_ray(s: int, t: int) -> (dk: (Direction, int))
    requires
        diagonal_line(s, t),
    ensures
        diagonal_direction(dk.0),
        1 <= dk.1,
        ray_ok(s, dk.0, dk.1),
        t == ray_sq(s, dk.0, dk.1),
{
    let df = file_diff(s, t);
    let dr = rank_diff(s, t);
    let d = if df > 0 && dr > 0 {
        Direction::UpRight
    } else if df > 0 {
        Direction::DownRight
    } else if dr > 0 {
        Direction::UpLeft
    } else {
        Direction::DownLeft
    };
    let k = if df > 0 { df } else { -df };
    assert(s == 8 * rank_of(s) + file_of(s));
    assert(t == 8 * rank_of(t) + file_of(t));
    (d, k)
}

/// A square on the rank or file of `s` is on an orthogonal ray from `s`.
proof fn lemma_orthogonal_ray(s: int, t: int) -> (dk: (Direction, int))
    requires
        orthogonal_line(s, t),
    ensures
        !diagonal_direction(dk.0),
        1 <= dk.1,
        ray_ok(s, dk.0, dk.1),
        t == ray_sq(s, dk.0, dk.1),
{
    let df = file_diff(s, t);
    let dr = rank_diff(s, t);
    assert(s == 8 * rank_of(s) + file_of(s));
    assert(t == 8 * rank_of(t) + file_of(t));
    let d = if df == 0 && dr > 0 {
        Direction::Up
    } else if df == 0 {
        Direction::Down
    } else if df > 0 {
        Direction::Right
    } else {
        Direction::Left
    };
    let k = if df == 0 {
        if dr > 0 { dr } else { -dr }
    } else {
        if df > 0 { df } else { -df }
    };
    (d, k)
}

/// A slider in direction `d` from `s` reaches `t` past no square of `occ` exactly when `t`
/// lies on that ray and no square strictly between holds a square of `occ`.
proof fn lemma_reaches_clear(s: int, d: Direction, k: int, occ: u64)
    requires
        1 <= k,
        ray_ok(s, d, k),
    ensures
        slider_reaches(s, d, ray_sq(s, d, k), occ) == forall|u: int| #[trigger] between(s, ray_sq(s, d, k), u) ==> !bit(occ, u),
{
    let t = ray_sq(s, d, k);
    lemma_ray_coords(s, d, k);
    if slider_reaches(s, d, t, occ) {
        let k2 = choose|k2: int| #![trigger ray_sq(s, d, k2)] 1 <= k2 && ray_ok(s, d, k2) && t == ray_sq(s, d, k2)
            && forall|j: int| 1 <= j < k2 ==> !#[trigger] bit(occ, ray_sq(s, d, j));
        lemma_ray_coords(s, d, k2);
        lemma_ray_coords(s, d, 0);
        assert(k2 == k);
        assert forall|u: int| #[trigger] between(s, t, u) implies !bit(occ, u) by {
            let j = lemma_between_on_ray(s, d, k, u);
        }
    }
    if forall|u: int| #[trigger] between(s, t, u) ==> !bit(occ, u) {
        assert forall|j: int| 1 <= j < k implies !#[trigger] bit(occ, ray_sq(s, d, j)) by {
            lemma_ray_between(s, d, k, j);
        }
        assert(slider_reaches(s, d, t, occ));
    }
}

/// A square of a ray from `a` in direction `d` is a slider move from `a` in that direction,
/// with nothing allied and the squares of `occ` in the way, exactly when nothing of `occ`
/// stands strictly between.
proof fn lemma_target_clear(a: int, d: Direction, t: int, occ: u64)
    requires
        valid_square(t),
    ensures
        slider_target(a, d, t, 0, occ) == slider_reaches(a, d, t, occ),
        slider_reaches(a, d, t, occ) ==> exists|k: int| 1 <= k && ray_ok(a, d, k) && t == #[trigger] ray_sq(a, d, k),
{
    lemma_zero_or(occ);
    lemma_bit_zero(t);
}

/// A bishop on `a`, with the squares of `occ` in the way and nothing allied, moves to `t`
/// exactly when `t` is on a diagonal through `a` with nothing of `occ` strictly between.
pub proof fn lemma_bishop_clear(a: int, t: int, occ: u64)
    requires
        valid_square(t),
    ensures
        bishop_target(a, t, 0, occ) == (diagonal_line(a, t) && forall|u: int| #[trigger] between(a, t, u) ==> !bit(occ, u)),
{
    lemma_target_clear(a, Direction::UpRight, t, occ);
    lemma_target_clear(a, Direction::UpLeft, t, occ);
    lemma_target_clear(a, Direction::DownRight, t, occ);
    lemma_target_clear(a, Direction::DownLeft, t, occ);
    if bishop_target(a, t, 0, occ) {
        let d = if slider_reaches(a, Direction::UpRight, t, occ) {
            Direction::UpRight
        } else if slider_reaches(a, Direction::UpLeft, t, occ) {
            Direction::UpLeft
        } else if slider_reaches(a, Direction::DownRight, t, occ) {
            Direction::DownRight
        } else {
            Direction::DownLeft
        };
        let k = choose|k: int| 1 <= k && ray_ok(a, d, k) && t == #[trigger] ray_sq(a, d, k);
        lemma_ray_between(a, d, k, 0);
        lemma_reaches_clear(a, d, k, occ);
    }
    if diagonal_line(a, t) && forall|u: int| #[trigger] between(a, t, u) ==> !bit(occ, u) {
        let (d, k) = lemma_diagonal_ray(a, t);
        lemma_reaches_clear(a, d, k, occ);
    }
}

/// A rook on `a`, with the squares of `occ` in the way and nothing allied, moves to `t`
/// exactly when `t` is on the rank or file of `a` with nothing of `occ` strictly between.
pub proof fn lemma_rook_clear(a: int, t: int, occ: u64)
    requires
        valid_square(t),
    ensures
        rook_target(a, t, 0, occ) == (orthogonal_line(a, t) && forall|u: int| #[trigger] between(a, t, u) ==> !bit(occ, u)),
{
    lemma_target_clear(a, Direction::Up, t, occ);
    lemma_target_clear(a, Direction::Down, t, occ);
    lemma_target_clear(a, Direction::Right, t, occ);
    lemma_target_clear(a, Direction::Left, t, occ);
    if rook_target(a, t, 0, occ) {
        let d = if slider_reaches(a, Direction::Up, t, occ) {
            Direction::Up
        } else if slider_reaches(a, Direction::Down, t, occ) {
            Direction::Down
        } else if slider_reaches(a, Direction::Right, t, occ) {
            Direction::Right
        } else {
            Direction::Left
        };
        let k = choose|k: int| 1 <= k && ray_ok(a, d, k) && t == #[trigger] ray_sq(a, d, k);
        lemma_ray_between(a, d, k, 0);
        lemma_reaches_clear(a, d, k, occ);
    }
    if orthogonal_line(a, t) && forall|u: int| #[trigger] between(a, t, u) ==> !bit(occ, u) {
        let (d, k) = lemma_orthogonal_ray(a, t);
        lemma_reaches_clear(a, d, k, occ);
    }
}

/// Side `o` attacks `t` in the bitboards with the other side's king off the board exactly when
/// a piece of `o` attacks `t` in the position with that king taken off.
#[verifier::rlimit(40)]
pub proof fn lemma_attacked_through_king(b: BitBoard, o: PlayerColor, t: int)
    requires
        b.wf(),
        0 <= t < 64,
    ensures
        attacked_through_king(b, o, t) == attacked_by(without_king(b@, other(o)), t, o),
{
    let v = b@;
    let w = without_king(v, other(o));
    let occ = occupied_through_king(b, o);
    let opp = b.side(o);
    assert forall|u: int| 0 <= u < 64 implies #[trigger] bit(occ, u) == (w[u] != ColoredPieceType::Empty) by {
        b.lemma_bits_of(u);
        lemma_bit_or(b.white_piece, b.black_piece, u);
        lemma_bit_and(b.white_piece | b.black_piece, !(b.king & b.side(other(o))), u);
        lemma_bit_not(b.king & b.side(other(o)), u);
        lemma_bit_and(b.king, b.side(other(o)), u);
    }
    assert forall|a: int| 0 <= a < 64 implies #[trigger] path_clear(w, a, t) == forall|u: int| #[trigger] between(a, t, u)
        ==> !bit(occ, u) by {
        if path_clear(w, a, t) {
            assert forall|u: int| #[trigger] between(a, t, u) implies !bit(occ, u) by {
                assert(w[u] == ColoredPieceType::Empty);
            }
        }
        if forall|u: int| #[trigger] between(a, t, u) ==> !bit(occ, u) {
            assert forall|u: int| #[trigger] between(a, t, u) implies w[u] == ColoredPieceType::Empty by {
                assert(!bit(occ, u));
            }
        }
    }
    if attacked_through_king(b, o, t) {
        if exists|a: int| 0 <= a < 64 && bit(b.knight & opp, a) && #[trigger] knight_step(a, t) {
            let a = choose|a: int| 0 <= a < 64 && bit(b.knight & opp, a) && #[trigger] knight_step(a, t);
            lemma_bit_and(b.knight, opp, a);
            b.lemma_bits_of(a);
            assert(attacks_from(w, a, t));
        } else if exists|a: int| 0 <= a < 64 && bit(b.king & opp, a) && #[trigger] king_step(a, t) {
            let a = choose|a: int| 0 <= a < 64 && bit(b.king & opp, a) && #[trigger] king_step(a, t);
            lemma_bit_and(b.king, opp, a);
            b.lemma_bits_of(a);
            assert(attacks_from(w, a, t));
        } else if exists|a: int| 0 <= a < 64 && bit(b.diagonal_slider & opp, a) && #[trigger] bishop_target(a, t, 0, occ) {
            let a = choose|a: int| 0 <= a < 64 && bit(b.diagonal_slider & opp, a) && #[trigger] bishop_target(a, t, 0, occ);
            lemma_bit_and(b.diagonal_slider, opp, a);
            b.lemma_bits_of(a);
            lemma_bishop_clear(a, t, occ);
            assert(attacks_from(w, a, t));
        } else if exists|a: int| 0 <= a < 64 && bit(b.orthogonal_slider & opp, a) && #[trigger] rook_target(a, t, 0, occ) {
            let a = choose|a: int| 0 <= a < 64 && bit(b.orthogonal_slider & opp, a) && #[trigger] rook_target(a, t, 0, occ);
            lemma_bit_and(b.orthogonal_slider, opp, a);
            b.lemma_bits_of(a);
            lemma_rook_clear(a, t, occ);
            assert(attacks_from(w, a, t));
        } else {
            let a = choose|a: int| 0 <= a < 64 && bit(b.pawn & opp, a) && #[trigger] pawn_attack(o, a, t);
            lemma_bit_and(b.pawn, opp, a);
            b.lemma_bits_of(a);
            assert(attacks_from(w, a, t));
        }
    }
    if attacked_by(w, t, o) {
        let a = choose|a: int| 0 <= a < 64 && w[a] != ColoredPieceType::Empty && color_of(w[a]) == o && #[trigger] attacks_from(w, a, t);
        b.lemma_bits_of(a);
        lemma_bit_and(b.knight, opp, a);
        lemma_bit_and(b.king, opp, a);
        lemma_bit_and(b.diagonal_slider, opp, a);
        lemma_bit_and(b.orthogonal_slider, opp, a);
        lemma_bit_and(b.pawn, opp, a);
        lemma_bishop_clear(a, t, occ);
        lemma_rook_clear(a, t, occ);
        assert(w[a] == v[a]);
    }
}

/// A square is attacked alike in two positions that differ only on that square: no piece
/// attacks the square it stands on.
proof fn lemma_attacked_same(w1: Seq<ColoredPieceType>, w2: Seq<ColoredPieceType>, t: int, o: PlayerColor)
    requires
        w1.len() == 64,
        w2.len() == 64,
        0 <= t < 64,
        forall|u: int| 0 <= u < 64 && u != t ==> w1[u] == w2[u],
    ensures
        attacked_by(w1, t, o) == attacked_by(w2, t, o),
{
    assert forall|a: int| 0 <= a < 64 && a != t implies #[trigger] attacks_from(w1, a, t) == attacks_from(w2, a, t) by {
        assert(path_clear(w1, a, t) == path_clear(w2, a, t)) by {
            if path_clear(w1, a, t) {
                assert forall|u: int| #[trigger] between(a, t, u) implies w2[u] == ColoredPieceType::Empty by {
                    assert(w1[u] == ColoredPieceType::Empty);
                }
            }
            if path_clear(w2, a, t) {
                assert forall|u: int| #[trigger] between(a, t, u) implies w1[u] == ColoredPieceType::Empty by {
                    assert(w2[u] == ColoredPieceType::Empty);
                }
            }
        }
    }
    assert(!attacks_from(w1, t, t) && !attacks_from(w2, t, t));
    if attacked_by(w1, t, o) {
        let a = choose|a: int| 0 <= a < 64 && w1[a] != ColoredPieceType::Empty && color_of(w1[a]) == o && #[trigger] attacks_from(w1, a, t);
        assert(attacks_from(w2, a, t));
    }
    if attacked_by(w2, t, o) {
        let a = choose|a: int| 0 <= a < 64 && w2[a] != ColoredPieceType::Empty && color_of(w2[a]) == o && #[trigger] attacks_from(w2, a, t);
        assert(attacks_from(w1, a, t));
    }
}

/// The generator lets the king step to a square next to it exactly when the step leaves it
/// safe: where the side to move has one king, a step to a square that holds no piece of its
/// own is among the king's targets exactly when no piece of the other side attacks the king
/// on that square after the step.
pub proof fn law_king_steps_safe(b: BitBoard, f: GameFlags, t: int)
    requires
        b.wf(),
        has_king(b, f.active_color),
        forall|s: int|
            0 <= s < 64 && b@[s] == colored_piece(PieceType::King, f.active_color) ==> s == king_of(b, f.active_color),
        king_step(king_of(b, f.active_color), t),
        !bit(b.side(f.active_color), t),
    ensures
        bit(legal_masks_spec(b, f).king_targets, t) == leaves_king_safe(
            b@,
            ChessMove::spec_new(king_of(b, f.active_color) as i8, t as i8, colored_piece(PieceType::King, f.active_color), b@[t]),
        ),
{
    broadcast use crate::board::bit_array::group_bit_lemmas;
    let c = f.active_color;
    let o = other(c);
    let v = b@;
    let k = king_of(b, c);
    let king = colored_piece(PieceType::King, c);
    let mv = ChessMove::spec_new(k as i8, t as i8, king, v[t]);
    let w = after_move(v, mv);
    let wk = without_king(v, c);
    b.lemma_king_of_bit(c);
    b.lemma_bits_of(t);
    lemma_mask_of_exists(|u: int| king_step(k, u));
    lemma_mask_of_exists(|u: int| attacked_through_king(b, o, u));
    lemma_attacked_through_king(b, o, t);
    assert(other(o) == c);
    assert forall|u: int| 0 <= u < 64 implies #[trigger] w[u] == (if u == t { king } else if u == k {
        ColoredPieceType::Empty
    } else {
        v[u]
    }) by {}
    assert forall|u: int| 0 <= u < 64 && u != t implies w[u] == wk[u] by {
        if v[u] == king {
            assert(u == k);
        }
    }
    lemma_attacked_same(w, wk, t, o);
    assert(king_square(w, c, t)) by {
        assert forall|j: int| 0 <= j < t implies w[j] != king by {
            if v[j] == king {
                assert(j == k);
            }
        }
    }
    if in_check_spec(w, c) {
        let kk = choose|kk: int| king_square(w, c, kk) && attacked_by(w, kk, other(c));
        if kk != t {
            assert(v[kk] == king);
        }
    }
}

/// The side to move has one king, and the other side's kings do not stand next to it.
pub open spec fn one_king_apart(v: Seq<ColoredPieceType>, c: PlayerColor, k: int) -> bool {
    &&& forall|s: int| 0 <= s < 64 && v[s] == colored_piece(PieceType::King, c) ==> s == k
    &&& forall|a: int| 0 <= a < 64 && v[a] == colored_piece(PieceType::King, other(c)) ==> !king_step(k, a)
}

/// The check mask of the side to move is every square exactly when its king is not attacked,
/// where the other king does not stand next to it.
#[verifier::rlimit(40)]
pub proof fn lemma_check_mask_full(b: BitBoard, c: PlayerColor)
    requires
        b.wf(),
        has_king(b, c),
        one_king_apart(b@, c, king_of(b, c)),
    ensures
        (check_mask(b, c) == u64::MAX) == !attacked_by(b@, king_of(b, c), other(c)),
{
    let v = b@;
    let k = king_of(b, c);
    let o = other(c);
    let occ = b.occupied();
    b.lemma_king_of_bit(c);
    lemma_mask_of_exists(|t: int| check_square(b, c, k, t));
    let chk = check_mask(b, c);
    assert forall|u: int| 0 <= u < 64 implies #[trigger] bit(occ, u) == (v[u] != ColoredPieceType::Empty) by {
        b.lemma_bits_of(u);
        lemma_bit_or(b.white_piece, b.black_piece, u);
    }
    if !attacked_by(v, k, o) {
        assert forall|a: int| 0 <= a < 64 implies !#[trigger] slider_checker(b, c, k, a) by {
            if slider_checker(b, c, k, a) {
                b.lemma_bits_of(a);
                assert(path_clear(v, a, k)) by {
                    assert forall|u: int| #[trigger] between(a, k, u) implies v[u] == ColoredPieceType::Empty by {
                        assert(!bit(occ, u));
                    }
                }
                assert(attacks_from(v, a, k));
            }
        }
        assert forall|a: int| 0 <= a < 64 implies !#[trigger] knight_checker(b, c, k, a) by {
            if knight_checker(b, c, k, a) {
                b.lemma_bits_of(a);
                assert(attacks_from(v, a, k));
            }
        }
        assert forall|a: int| 0 <= a < 64 implies !#[trigger] pawn_checker(b, c, k, a) by {
            if pawn_checker(b, c, k, a) {
                b.lemma_bits_of(a);
                assert(attacks_from(v, a, k));
            }
        }
        assert forall|t: int| 0 <= t < 64 implies bit(chk, t) == bit(u64::MAX, t) by {
            lemma_bit_full(t);
        }
        lemma_bits_ext(chk, u64::MAX);
    } else {
        let a = choose|a: int| 0 <= a < 64 && v[a] != ColoredPieceType::Empty && color_of(v[a]) == o && #[trigger] attacks_from(v, a, k);
        b.lemma_bits_of(a);
        if piece_type_of(v[a]) == PieceType::Knight {
            assert(knight_checker(b, c, k, a));
        } else if piece_type_of(v[a]) == PieceType::Pawn {
            assert(pawn_checker(b, c, k, a));
        } else {
            assert(v[a] != colored_piece(PieceType::King, o));
            assert(nothing_between(occ, a, k)) by {
                assert forall|u: int| 0 <= u < 64 && #[trigger] between(a, k, u) implies !bit(occ, u) by {
                    assert(v[u] == ColoredPieceType::Empty);
                }
            }
            assert(slider_checker(b, c, k, a));
        }
        assert(!check_square(b, c, k, k));
        lemma_bit_full(k);
    }
}

/// A square strictly between `a` and `x` on their line is on a line of the same kind with
/// `a`, and what lies strictly between `a` and it lies strictly between `a` and `x`.
proof fn lemma_between_prefix(a: int, x: int, k: int)
    requires
        between(a, x, k),
    ensures
        diagonal_line(a, x) ==> diagonal_line(a, k),
        orthogonal_line(a, x) ==> orthogonal_line(a, k),
        forall|u: int| #[trigger] between(a, k, u) ==> between(a, x, u),
{
    if diagonal_line(a, x) {
        let (d, n) = lemma_diagonal_ray(a, x);
        let j = lemma_between_on_ray(a, d, n, k);
        lemma_ray_between(a, d, j, 0);
        assert forall|u: int| #[trigger] between(a, k, u) implies between(a, x, u) by {
            let i = lemma_between_on_ray(a, d, j, u);
            lemma_ray_between(a, d, n, i);
        }
    } else {
        let (d, n) = lemma_orthogonal_ray(a, x);
        let j = lemma_between_on_ray(a, d, n, k);
        lemma_ray_between(a, d, j, 0);
        assert forall|u: int| #[trigger] between(a, k, u) implies between(a, x, u) by {
            let i = lemma_between_on_ray(a, d, j, u);
            lemma_ray_between(a, d, n, i);
        }
    }
}

/// Where the king of the side to move, its only king, is not attacked, taking it off the
/// board opens no line of attack: every square is attacked alike with it and without it.
#[verifier::rlimit(40)]
pub proof fn lemma_off_board_same(v: Seq<ColoredPieceType>, c: PlayerColor, k: int, x: int)
    requires
        v.len() == 64,
        0 <= k < 64,
        0 <= x < 64,
        v[k] == colored_piece(PieceType::King, c),
        forall|s: int| 0 <= s < 64 && v[s] == colored_piece(PieceType::King, c) ==> s == k,
        !attacked_by(v, k, other(c)),
    ensures
        attacked_by(without_king(v, c), x, other(c)) == attacked_by(v, x, other(c)),
{
    let o = other(c);
    let w = without_king(v, c);
    assert forall|u: int| 0 <= u < 64 && u != k implies w[u] == v[u] by {}
    assert(w[k] == ColoredPieceType::Empty);
    if attacked_by(v, x, o) {
        let a = choose|a: int| 0 <= a < 64 && v[a] != ColoredPieceType::Empty && color_of(v[a]) == o && #[trigger] attacks_from(v, a, x);
        assert(w[a] == v[a]);
        if path_clear(v, a, x) {
            assert forall|u: int| #[trigger] between(a, x, u) implies w[u] == ColoredPieceType::Empty by {
                assert(v[u] == ColoredPieceType::Empty);
            }
        }
        assert(attacks_from(w, a, x));
    }
    if attacked_by(w, x, o) {
        let a = choose|a: int| 0 <= a < 64 && w[a] != ColoredPieceType::Empty && color_of(w[a]) == o && #[trigger] attacks_from(w, a, x);
        assert(v[a] == w[a]);
        if between(a, x, k) {
            lemma_between_prefix(a, x, k);
            assert forall|u: int| #[trigger] between(a, k, u) implies v[u] == ColoredPieceType::Empty by {
                assert(between(a, x, u));
                assert(u != k);
                assert(w[u] == ColoredPieceType::Empty);
            }
            assert(attacks_from(v, a, k));
            assert(false);
        } else {
            if path_clear(w, a, x) {
                assert forall|u: int| #[trigger] between(a, x, u) implies v[u] == ColoredPieceType::Empty by {
                    assert(u != k);
                    assert(w[u] == ColoredPieceType::Empty);
                }
            }
            assert(attacks_from(v, a, x));
        }
    }
}

/// After castling, the king's new square is attacked exactly as it is with the king off the
/// board before: the rook's corner lies on no line to that square, and a line through the
/// rook's new square would run on through the king's home square, which is not attacked.
#[verifier::rlimit(60)]
#[verifier::spinoff_prover]
proof fn lemma_castle_dest_same(v: Seq<ColoredPieceType>, c: PlayerColor, long: bool)
    requires
        v.len() == 64,
        v[king_home(c)] == colored_piece(PieceType::King, c),
        forall|s: int| 0 <= s < 64 && v[s] == colored_piece(PieceType::King, c) ==> s == king_home(c),
        long ==> v[king_home(c) - 4] == colored_piece(PieceType::Rook, c),
        long ==> v[king_home(c) - 1] == ColoredPieceType::Empty && v[king_home(c) - 2] == ColoredPieceType::Empty,
        !long ==> v[king_home(c) + 3] == colored_piece(PieceType::Rook, c),
        !long ==> v[king_home(c) + 1] == ColoredPieceType::Empty && v[king_home(c) + 2] == ColoredPieceType::Empty,
        !attacked_by(v, king_home(c), other(c)),
    ensures
        ({
            let k = king_home(c);
            let dest = if long { k - 2 } else { k + 2 };
            let mv = ChessMove::spec_new(k as i8, dest as i8, colored_piece(PieceType::King, c), ColoredPieceType::Empty);
            attacked_by(after_move(v, mv), dest, other(c)) == attacked_by(without_king(v, c), dest, other(c))
        }),
{
    let o = other(c);
    let k = king_home(c);
    let king = colored_piece(PieceType::King, c);
    let rook = colored_piece(PieceType::Rook, c);
    let dest = if long { k - 2 } else { k + 2 };
    let rook_from = if long { k - 4 } else { k + 3 };
    let rook_to = if long { k - 1 } else { k + 1 };
    let mv = ChessMove::spec_new(k as i8, dest as i8, king, ColoredPieceType::Empty);
    let w = after_move(v, mv);
    let wk = without_king(v, c);
    assert(castle_rook_squares(mv) == (rook_from, rook_to));
    assert forall|u: int| 0 <= u < 64 implies #[trigger] w[u] == (if u == dest { king } else if u == rook_to { rook } else if u
        == k || u == rook_from { ColoredPieceType::Empty } else { v[u] }) by {}
    assert forall|u: int| 0 <= u < 64 implies #[trigger] wk[u] == (if u == k { ColoredPieceType::Empty } else { v[u] }) by {
        if v[u] == king {
            assert(u == k);
        }
    }
    assert forall|a: int| #[trigger] between(a, dest, rook_from) implies false by {}
    assert forall|a: int|
        0 <= a < 64 && wk[a] != ColoredPieceType::Empty && color_of(wk[a]) == o && #[trigger] attacks_from(wk, a, dest)
            implies attacks_from(w, a, dest) by {
        assert(w[a] == wk[a]);
        if between(a, dest, rook_to) {
            assert(between(a, dest, k));
            lemma_between_prefix(a, dest, k);
            assert forall|u: int| #[trigger] between(a, k, u) implies v[u] == ColoredPieceType::Empty by {
                assert(between(a, dest, u));
                assert(wk[u] == ColoredPieceType::Empty);
            }
            assert(attacks_from(v, a, k));
            assert(false);
        }
        assert forall|u: int| #[trigger] between(a, dest, u) implies w[u] == ColoredPieceType::Empty by {
            assert(wk[u] == ColoredPieceType::Empty);
        }
    }
    assert forall|a: int|
        0 <= a < 64 && w[a] != ColoredPieceType::Empty && color_of(w[a]) == o && #[trigger] attacks_from(w, a, dest)
            implies attacks_from(wk, a, dest) by {
        assert(w[a] == wk[a]);
        assert forall|u: int| #[trigger] between(a, dest, u) implies wk[u] == ColoredPieceType::Empty by {
            assert(w[u] == ColoredPieceType::Empty);
        }
    }
    if attacked_by(w, dest, o) {
        let a = choose|a: int| 0 <= a < 64 && w[a] != ColoredPieceType::Empty && color_of(w[a]) == o && #[trigger] attacks_from(w, a, dest);
        assert(attacks_from(wk, a, dest));
    }
    if attacked_by(wk, dest, o) {
        let a = choose|a: int| 0 <= a < 64 && wk[a] != ColoredPieceType::Empty && color_of(wk[a]) == o && #[trigger] attacks_from(wk, a, dest);
        assert(attacks_from(w, a, dest));
    }
}

/// One castling of the generator is the pseudo-legal one that leaves the king safe.
#[verifier::rlimit(80)]
#[verifier::spinoff_prover]
proof fn lemma_castle_side(b: BitBoard, f: GameFlags, long: bool)
    requires
        b.wf(),
        has_king(b, f.active_color),
        one_king_apart(b@, f.active_color, king_of(b, f.active_color)),
        flags_fit(b@, f),
    ensures
        ({
            let c = f.active_color;
            let k = king_of(b, c);
            let m = legal_masks_spec(b, f);
            let king = colored_piece(PieceType::King, c);
            if long {
                m.queen_castle == (queen_castle_open(b, f) && !attacked_by(b@, k - 1, other(c)) && leaves_king_safe(
                    b@,
                    ChessMove::spec_new(k as i8, (k - 2) as i8, king, ColoredPieceType::Empty),
                ))
            } else {
                m.king_castle == (king_castle_open(b, f) && !attacked_by(b@, k + 1, other(c)) && leaves_king_safe(
                    b@,
                    ChessMove::spec_new(k as i8, (k + 2) as i8, king, ColoredPieceType::Empty),
                ))
            }
        }),
{
    broadcast use crate::board::bit_array::group_bit_lemmas;
    let c = f.active_color;
    let o = other(c);
    let v = b@;
    let k = king_of(b, c);
    let m = legal_masks_spec(b, f);
    let king = colored_piece(PieceType::King, c);
    let home = king_home(c);
    let tr: int = if c == PlayerColor::White { 0 } else { 7 };
    let occ = b.white_piece | b.black_piece;
    let attacked = attacked_mask(b, o);
    let right = if long {
        if c == PlayerColor::White { f.white_queen_side_castle } else { f.black_queen_side_castle }
    } else {
        if c == PlayerColor::White { f.white_king_side_castle } else { f.black_king_side_castle }
    };
    let dest = if long { k - 2 } else { k + 2 };
    let cross = if long { k - 1 } else { k + 1 };
    let mv = ChessMove::spec_new(k as i8, dest as i8, king, ColoredPieceType::Empty);
    b.lemma_king_of_bit(c);
    lemma_check_mask_full(b, c);
    if right && !attacked_by(v, k, o) {
        lemma_king_square_unique(v, c, k, home);
        lemma_castle_blockers();
        lemma_mask_of_exists(|t: int| attacked_through_king(b, o, t));
        let block = if long { shifted(14, 0, tr) } else { shifted(96, 0, tr) };
        let guard = if long { shifted(12, 0, tr) } else { shifted(96, 0, tr) };
        assert forall|x: int| 0 <= x < 64 implies #[trigger] bit(block, x) == (if long { home - 3 <= x <= home - 1 } else {
            home + 1 <= x <= home + 2
        }) && bit(guard, x) == (if long { home - 2 <= x <= home - 1 } else { home + 1 <= x <= home + 2 }) by {
            lemma_shifted_bits(14, 0, tr, x);
            lemma_shifted_bits(12, 0, tr, x);
            lemma_shifted_bits(96, 0, tr, x);
        }
        if occ & block == 0 {
            assert forall|x: int| (if long { home - 3 <= x <= home - 1 } else { home + 1 <= x <= home + 2 }) implies v[x]
                == ColoredPieceType::Empty by {
                assert(bit(block, x));
                assert(!bit(occ & block, x));
                b.lemma_bits_of(x);
            }
            lemma_attacked_through_king(b, o, dest);
            lemma_attacked_through_king(b, o, cross);
            lemma_off_board_same(v, c, k, cross);
            lemma_castle_dest_same(v, c, long);
            let w = after_move(v, mv);
            assert(w[dest] == king);
            assert forall|s: int| 0 <= s < 64 && s != dest implies w[s] != king by {
                if v[s] == king {
                    assert(s == k);
                }
            }
            assert(king_square(w, c, dest));
            if in_check_spec(w, c) {
                let kk = choose|kk: int| king_square(w, c, kk) && attacked_by(w, kk, other(c));
                assert(kk == dest);
            }
            assert(leaves_king_safe(v, mv) == !attacked_by(w, dest, o));
            assert(has_squares(attacked, |t: int| attacked_through_king(b, o, t)));
            assert(k == home);
            lemma_shifted_bits(12, 0, tr, dest);
            lemma_shifted_bits(12, 0, tr, cross);
            lemma_shifted_bits(96, 0, tr, dest);
            lemma_shifted_bits(96, 0, tr, cross);
            assert(bit(12, dest - 8 * tr) == (2 <= dest - 8 * tr <= 3));
            assert(bit(12, cross - 8 * tr) == (2 <= cross - 8 * tr <= 3));
            assert(bit(96, dest - 8 * tr) == (5 <= dest - 8 * tr <= 6));
            assert(bit(96, cross - 8 * tr) == (5 <= cross - 8 * tr <= 6));
            assert(bit(guard, dest) && bit(guard, cross));
            assert(bit(attacked, dest) == attacked_through_king(b, o, dest));
            assert(bit(attacked, cross) == attacked_through_king(b, o, cross));
            if guard & attacked == 0 {
                assert(!bit(guard & attacked, dest));
                assert(!bit(guard & attacked, cross));
            }
            if !attacked_through_king(b, o, dest) && !attacked_through_king(b, o, cross) {
                assert forall|x: int| 0 <= x < 64 implies bit(guard & attacked, x) == bit(0u64, x) by {
                    lemma_shifted_bits(12, 0, tr, x);
                    lemma_shifted_bits(96, 0, tr, x);
                    if 0 <= x - 8 * tr < 64 {
                        assert(bit(12, x - 8 * tr) == (2 <= x - 8 * tr <= 3));
                        assert(bit(96, x - 8 * tr) == (5 <= x - 8 * tr <= 6));
                    }
                    if bit(guard, x) {
                        assert(x == dest || x == cross);
                        assert(bit(attacked, x) == attacked_through_king(b, o, x));
                    }
                }
                lemma_bits_ext(guard & attacked, 0u64);
            }
        }
    }
}

/// The generator's castlings are the pseudo-legal castlings that leave the king safe: where
/// the side to move has one king, the other king does not stand next to it and the flags fit
/// the position, the generator castles long (or short) exactly when the king is not attacked,
/// may still castle that way, stands apart from its rook by empty squares only, does not cross
/// an attacked square, and is not attacked on the square it reaches.
pub proof fn law_castles_safe(b: BitBoard, f: GameFlags)
    requires
        b.wf(),
        has_king(b, f.active_color),
        one_king_apart(b@, f.active_color, king_of(b, f.active_color)),
        flags_fit(b@, f),
    ensures
        ({
            let c = f.active_color;
            let k = king_of(b, c);
            let m = legal_masks_spec(b, f);
            let king = colored_piece(PieceType::King, c);
            &&& m.queen_castle == (queen_castle_open(b, f) && !attacked_by(b@, k - 1, other(c)) && leaves_king_safe(
                b@,
                ChessMove::spec_new(k as i8, (k - 2) as i8, king, ColoredPieceType::Empty),
            ))
            &&& m.king_castle == (king_castle_open(b, f) && !attacked_by(b@, k + 1, other(c)) && leaves_king_safe(
                b@,
                ChessMove::spec_new(k as i8, (k + 2) as i8, king, ColoredPieceType::Empty),
            ))
        }),
{
    lemma_castle_side(b, f, true);
    lemma_castle_side(b, f, false);
}

/// A move that meets every check and keeps every pin leaves the king safe: where the side to
/// move has one king, a sound move of another piece, neither a castling nor an en passant
/// capture, leaves no piece of the other side attacking the king when its target takes every
/// piece that attacks the king or stands between it and the king, and lies on the pin line
/// (pinning piece included) of every slider that pins the moving piece to the king. When the
/// king is not in check the first part holds at once, and for a piece on no pin line the
/// second.
#[verifier::rlimit(80)]
#[verifier::spinoff_prover]
pub proof fn law_covering_moves_safe(b: BitBoard, f: GameFlags, m: ChessMove)
    requires
        b.wf(),
        has_king(b, f.active_color),
        forall|s: int|
            0 <= s < 64 && b@[s] == colored_piece(PieceType::King, f.active_color) ==> s == king_of(b, f.active_color),
        forall|a: int|
            0 <= a < 64 && b@[a] != ColoredPieceType::Empty && color_of(b@[a]) == other(f.active_color)
                && #[trigger] attacks_from(b@, a, king_of(b, f.active_color)) ==> a == m.end as int || between(
                a,
                king_of(b, f.active_color),
                m.end as int,
            ),
        sound_move(b@, f.active_color, m),
        piece_type_of(m.move_piece) != PieceType::King,
        !is_en_passant_spec(m),
        forall|a: int|
            0 <= a < 64 && (diagonal_attacker(b, f.active_color, king_of(b, f.active_color), a) || orthogonal_attacker(
                b,
                f.active_color,
                king_of(b, f.active_color),
                a,
            )) && one_between(b.occupied(), a, king_of(b, f.active_color)) && #[trigger] between(
                a,
                king_of(b, f.active_color),
                m.start as int,
            ) ==> toward(a, king_of(b, f.active_color), m.end as int),
    ensures
        leaves_king_safe(b@, m),
{
    let c = f.active_color;
    let o = other(c);
    let v = b@;
    let k = king_of(b, c);
    let king = colored_piece(PieceType::King, c);
    let s = m.start as int;
    let t = m.end as int;
    let w = after_move(v, m);
    let occ = b.occupied();
    b.lemma_king_of_bit(c);
    assert(!is_castle_spec(m));
    assert forall|u: int| 0 <= u < 64 implies #[trigger] bit(occ, u) == (v[u] != ColoredPieceType::Empty) by {
        b.lemma_bits_of(u);
        lemma_bit_or(b.white_piece, b.black_piece, u);
    }
    assert(s != k);
    assert(t != k);
    assert forall|u: int| 0 <= u < 64 && u != s && u != t implies #[trigger] w[u] == v[u] by {}
    assert(w[s] == ColoredPieceType::Empty);
    assert(w[t] != ColoredPieceType::Empty && color_of(w[t]) == c && w[t] != king);
    assert(w[k] == king);
    assert(king_square(w, c, k)) by {
        assert forall|j: int| 0 <= j < k implies w[j] != king by {
            if j != s && j != t {
                assert(v[j] != king);
            }
        }
    }
    if attacked_by(w, k, o) {
        let a = choose|a: int| 0 <= a < 64 && w[a] != ColoredPieceType::Empty && color_of(w[a]) == o && #[trigger] attacks_from(w, a, k);
        assert(a != s && a != t);
        assert(v[a] == w[a]);
        b.lemma_bits_of(a);
        if between(a, k, s) {
            assert(one_between(occ, a, k)) by {
                assert(bit(occ, s));
                assert forall|u2: int| 0 <= u2 < 64 && #[trigger] between(a, k, u2) && bit(occ, u2) implies u2 == s by {
                    if u2 != s {
                        assert(w[u2] == ColoredPieceType::Empty);
                    }
                }
            }
            if diagonal_line(a, k) && (piece_type_of(v[a]) == PieceType::Bishop || piece_type_of(v[a]) == PieceType::Queen) {
                assert(diagonal_attacker(b, c, k, a));
            } else {
                assert(orthogonal_attacker(b, c, k, a));
            }
            assert(toward(a, k, t));
            assert(between(a, k, t));
            assert(w[t] != ColoredPieceType::Empty);
        } else {
            assert forall|u: int| #[trigger] between(a, k, u) implies v[u] == ColoredPieceType::Empty by {
                if path_clear(w, a, k) {
                    assert(w[u] == ColoredPieceType::Empty);
                }
            }
            assert(attacks_from(v, a, k));
            assert(between(a, k, t));
            assert(w[t] != ColoredPieceType::Empty);
        }
    }
    if in_check_spec(w, c) {
        let kk = choose|kk: int| king_square(w, c, kk) && attacked_by(w, kk, other(c));
        lemma_king_square_unique(w, c, kk, k);
    }
}

} // verus!
