use vstd::prelude::*;
use crate::board::bit_array::{bit, count_bits, lemma_bit_and, lemma_bit_or, lemma_bit_zero, lemma_pop_one, lemma_pop_zero, lemma_set_squares_are_set, lemma_set_squares_has, set_squares, BitArray};
use crate::board::bit_array_lookup::{between, diagonal_line, diagonal_moves, in_between, knight_moves, knight_step, orthogonal_line, orthogonal_moves, pawn_attack, pawn_attacks};
use crate::board::bit_board::{king_of, king_square, BitBoard};
use crate::board::piece_type::{colored_piece, PieceType};
use crate::board::player_color::{other, PlayerColor};
use crate::board::square::Square;

verus! {

/// No piece of `occupied` stands strictly between `a` and `k`.
pub open spec fn nothing_between(occupied: u64, a: int, k: int) -> bool {
    forall|u: int| 0 <= u < 64 && #[trigger] between(a, k, u) ==> !bit(occupied, u)
}

/// Exactly one piece of `occupied` stands strictly between `a` and `k`.
pub open spec fn one_between(occupied: u64, a: int, k: int) -> bool {
    exists|u: int| 0 <= u < 64 && #[trigger] between(a, k, u) && bit(occupied, u)
        && forall|v: int| 0 <= v < 64 && #[trigger] between(a, k, v) && bit(occupied, v) ==> v == u
}

/// Square `t` is on the line from `a` to `k`, with `a` and without `k`.
pub open spec fn toward(a: int, k: int, t: int) -> bool {
    between(a, k, t) || t == a
}

/// A slider of the side opposing `color` stands on `a` on a diagonal through `k`.
pub open spec fn diagonal_attacker(b: BitBoard, color: PlayerColor, k: int, a: int) -> bool {
    bit(b.diagonal_slider, a) && bit(b.side(other(color)), a) && diagonal_line(k, a)
}

/// A slider of the side opposing `color` stands on `a` on the rank or file of `k`.
pub open spec fn orthogonal_attacker(b: BitBoard, color: PlayerColor, k: int, a: int) -> bool {
    bit(b.orthogonal_slider, a) && bit(b.side(other(color)), a) && orthogonal_line(k, a)
}

/// A knight of the side opposing `color` on `a` attacks `k`.
pub open spec fn knight_checker(b: BitBoard, color: PlayerColor, k: int, a: int) -> bool {
    bit(b.knight, a) && bit(b.side(other(color)), a) && knight_step(k, a)
}

/// A pawn of the side opposing `color` on `a` attacks `k`.
pub open spec fn pawn_checker(b: BitBoard, color: PlayerColor, k: int, a: int) -> bool {
    bit(b.pawn, a) && bit(b.side(other(color)), a) && pawn_attack(color, k, a)
}

/// A slider gives check to the king on `k` from `a`.
pub open spec fn slider_checker(b: BitBoard, color: PlayerColor, k: int, a: int) -> bool {
    (diagonal_attacker(b, color, k, a) || orthogonal_attacker(b, color, k, a))
        && nothing_between(b.occupied(), a, k)
}

/// The squares that end every check to the king of `color` on `k`: for each checking slider,
/// its square and those between it and the king; for a checking knight or pawn, the squares of
/// the checking knights or pawns. Every square when there is no check.
pub open spec fn check_square(b: BitBoard, color: PlayerColor, k: int, t: int) -> bool {
    &&& forall|a: int| 0 <= a < 64 && #[trigger] slider_checker(b, color, k, a) ==> toward(a, k, t)
    &&& (exists|a: int| 0 <= a < 64 && #[trigger] knight_checker(b, color, k, a)) ==> knight_checker(b, color, k, t)
    &&& (exists|a: int| 0 <= a < 64 && #[trigger] pawn_checker(b, color, k, a)) ==> pawn_checker(b, color, k, t)
}

/// Square `t` is on a diagonal pin of the king of `color` on `k`: from a diagonal slider with
/// exactly one piece between it and the king, to the king.
pub open spec fn diagonal_pin_square(b: BitBoard, color: PlayerColor, k: int, t: int) -> bool {
    exists|a: int| 0 <= a < 64 && #[trigger] diagonal_attacker(b, color, k, a)
        && one_between(b.occupied(), a, k) && toward(a, k, t)
}

/// Square `t` is on an orthogonal pin of the king of `color` on `k`.
pub open spec fn orthogonal_pin_square(b: BitBoard, color: PlayerColor, k: int, t: int) -> bool {
    exists|a: int| 0 <= a < 64 && #[trigger] orthogonal_attacker(b, color, k, a)
        && one_between(b.occupied(), a, k) && toward(a, k, t)
}

/// The squares to which a move must go to meet a check, and the lines of the pins, on the
/// king of one side.
pub struct CheckPinMask {
    pub check: u64,
    pub ortho: u64,
    pub diag: u64,
}

/// No piece of `occupied` between `a` and `k` when no square of the in-between bits is occupied.
pub proof fn lemma_count_zero(occupied: u64, between_bits: u64, a: int, k: int)
    requires
        forall|u: int| 0 <= u < 64 ==> #[trigger] bit(between_bits, u) == between(a, k, u),
    ensures
        (crate::board::bit_array::pop(between_bits & occupied) == 0) == nothing_between(occupied, a, k),
{
    let x = between_bits & occupied;
    assert forall|u: int| 0 <= u < 64 implies #[trigger] bit(x, u) == (between(a, k, u) && bit(occupied, u)) by {
        lemma_bit_and(between_bits, occupied, u);
    }
    lemma_pop_zero(x);
    if !nothing_between(occupied, a, k) {
        let u = choose|u: int| 0 <= u < 64 && #[trigger] between(a, k, u) && bit(occupied, u);
        assert(bit(x, u));
    }
}

/// Exactly one piece of `occupied` between `a` and `k` when exactly one square of the
/// in-between bits is occupied.
#[verifier::rlimit(30)]
pub proof fn lemma_count_one(occupied: u64, between_bits: u64, a: int, k: int)
    requires
        forall|u: int| 0 <= u < 64 ==> #[trigger] bit(between_bits, u) == between(a, k, u),
    ensures
        (crate::board::bit_array::pop(between_bits & occupied) == 1) == one_between(occupied, a, k),
{
    let x = between_bits & occupied;
    assert forall|u: int| 0 <= u < 64 implies #[trigger] bit(x, u) == (between(a, k, u) && bit(occupied, u)) by {
        lemma_bit_and(between_bits, occupied, u);
    }
    lemma_pop_one(x);
    if one_between(occupied, a, k) {
        let u = choose|u: int| 0 <= u < 64 && #[trigger] between(a, k, u) && bit(occupied, u)
            && forall|v: int| 0 <= v < 64 && #[trigger] between(a, k, v) && bit(occupied, v) ==> v == u;
        assert(bit(x, u));
        assert forall|v: int| 0 <= v < 64 && #[trigger] bit(x, v) implies v == u by {
            assert(between(a, k, v) && bit(occupied, v));
        }
    }
    if crate::board::bit_array::pop(x) == 1 {
        let u = choose|u: int| 0 <= u < 64 && #[trigger] bit(x, u) && forall|v: int| 0 <= v < 64 && #[trigger] bit(x, v) ==> v == u;
        assert(between(a, k, u) && bit(occupied, u));
        assert forall|v: int| 0 <= v < 64 && #[trigger] between(a, k, v) && bit(occupied, v) implies v == u by {
            assert(bit(x, v));
        }
    }
}

/// The checks and pins from the sliders on `attackers` against the king on `king`: `check`
/// narrowed to the lines of the sliders with nothing between them and the king, and the lines
/// of the sliders with exactly one piece between.
fn scan_sliders(attackers: u64, king: i8, occupied: u64, check: u64) -> (r: (u64, u64))
    requires
        0 <= king < 64,
    ensures
        forall|t: int| 0 <= t < 64 ==> #[trigger] bit(r.0, t) == (bit(check, t)
            && forall|a: int| 0 <= a < 64 && bit(attackers, a) && nothing_between(occupied, a, king as int)
                ==> #[trigger] toward(a, king as int, t)),
        forall|t: int| 0 <= t < 64 ==> #[trigger] bit(r.1, t) == exists|a: int| 0 <= a < 64
            && #[trigger] bit(attackers, a) && one_between(occupied, a, king as int) && toward(a, king as int, t),
{
    let ghost k = king as int;
    let ghost sq = set_squares(attackers);
    let squares = attackers.iterate_set_bits_indices();
    let mut check_mask = check;
    let mut pin_mask: u64 = 0;
    let mut i: usize = 0;
    proof {
        lemma_set_squares_are_set(attackers);
        assert forall|t: int| 0 <= t < 64 implies !#[trigger] bit(pin_mask, t) by {
            lemma_bit_zero(t);
        }
    }
    while i < squares.len()
        invariant
            0 <= k < 64,
            k == king,
            sq == set_squares(attackers),
            squares@.len() == sq.len(),
            forall|j: int| 0 <= j < squares@.len() ==> squares@[j] == sq[j],
            forall|j: int| 0 <= j < sq.len() ==> 0 <= #[trigger] sq[j] < 64 && bit(attackers, sq[j]),
            i <= squares@.len(),
            forall|t: int| 0 <= t < 64 ==> #[trigger] bit(check_mask, t) == (bit(check, t)
                && forall|j: int| 0 <= j < i && nothing_between(occupied, sq[j], k) ==> #[trigger] toward(sq[j], k, t)),
            forall|t: int| 0 <= t < 64 ==> #[trigger] bit(pin_mask, t) == exists|j: int| 0 <= j < i
                && one_between(occupied, #[trigger] sq[j], k) && toward(sq[j], k, t),
        decreases squares@.len() - i,
    {
        let attacker = squares[i] as i8;
        let ghost a = sq[i as int];
        assert(attacker == a);
        let between_bits = in_between(attacker, king);
        let count = count_bits(between_bits & occupied);
        proof {
            lemma_count_zero(occupied, between_bits, a, k);
            lemma_count_one(occupied, between_bits, a, k);
        }
        let attacker_bit = attacker.bit_array();
        let ray = between_bits | attacker_bit;
        proof {
            assert forall|t: int| 0 <= t < 64 implies #[trigger] bit(ray, t) == toward(a, k, t) by {
                lemma_bit_or(between_bits, attacker_bit, t);
            }
        }
        if count == 0 {
            let ghost old_check = check_mask;
            check_mask = check_mask & ray;
            proof {
                assert forall|t: int| 0 <= t < 64 implies #[trigger] bit(check_mask, t) == (bit(check, t)
                    && forall|j: int| 0 <= j < i + 1 && nothing_between(occupied, sq[j], k) ==> #[trigger] toward(sq[j], k, t)) by {
                    lemma_bit_and(old_check, ray, t);
                }
                assert forall|t: int| 0 <= t < 64 implies #[trigger] bit(pin_mask, t) == exists|j: int| 0 <= j < i + 1
                    && one_between(occupied, #[trigger] sq[j], k) && toward(sq[j], k, t) by {
                    if exists|j: int| 0 <= j < i + 1 && one_between(occupied, #[trigger] sq[j], k) && toward(sq[j], k, t) {
                        let j = choose|j: int| 0 <= j < i + 1 && one_between(occupied, #[trigger] sq[j], k) && toward(sq[j], k, t);
                        assert(j < i);
                    }
                }
            }
        } else if count == 1 {
            let ghost old_pin = pin_mask;
            pin_mask = pin_mask | ray;
            proof {
                assert forall|t: int| 0 <= t < 64 implies #[trigger] bit(pin_mask, t) == exists|j: int| 0 <= j < i + 1
                    && one_between(occupied, #[trigger] sq[j], k) && toward(sq[j], k, t) by {
                    lemma_bit_or(old_pin, ray, t);
                    if exists|j: int| 0 <= j < i + 1 && one_between(occupied, #[trigger] sq[j], k) && toward(sq[j], k, t) {
                        let j = choose|j: int| 0 <= j < i + 1 && one_between(occupied, #[trigger] sq[j], k) && toward(sq[j], k, t);
                        if j < i {
                            assert(bit(old_pin, t));
                        }
                    }
                    if bit(ray, t) {
                        assert(toward(sq[i as int], k, t));
                    }
                }
                assert forall|t: int| 0 <= t < 64 implies #[trigger] bit(check_mask, t) == (bit(check, t)
                    && forall|j: int| 0 <= j < i + 1 && nothing_between(occupied, sq[j], k) ==> #[trigger] toward(sq[j], k, t)) by {
                }
            }
        } else {
            proof {
                assert forall|t: int| 0 <= t < 64 implies #[trigger] bit(pin_mask, t) == exists|j: int| 0 <= j < i + 1
                    && one_between(occupied, #[trigger] sq[j], k) && toward(sq[j], k, t) by {
                    if exists|j: int| 0 <= j < i + 1 && one_between(occupied, #[trigger] sq[j], k) && toward(sq[j], k, t) {
                        let j = choose|j: int| 0 <= j < i + 1 && one_between(occupied, #[trigger] sq[j], k) && toward(sq[j], k, t);
                        assert(j < i);
                    }
                }
                assert forall|t: int| 0 <= t < 64 implies #[trigger] bit(check_mask, t) == (bit(check, t)
                    && forall|j: int| 0 <= j < i + 1 && nothing_between(occupied, sq[j], k) ==> #[trigger] toward(sq[j], k, t)) by {
                }
            }
        }
        i = i + 1;
    }
    proof {
        assert forall|t: int| 0 <= t < 64 implies #[trigger] bit(check_mask, t) == (bit(check, t)
            && forall|a: int| 0 <= a < 64 && bit(attackers, a) && nothing_between(occupied, a, k)
                ==> #[trigger] toward(a, k, t)) by {
            if bit(check_mask, t) {
                assert forall|a: int| 0 <= a < 64 && bit(attackers, a) && nothing_between(occupied, a, k)
                    implies #[trigger] toward(a, k, t) by {
                    lemma_set_squares_has(attackers, a);
                    let j = choose|j: int| 0 <= j < sq.len() && sq[j] == a;
                    assert(toward(sq[j], k, t));
                }
            }
        }
        assert forall|t: int| 0 <= t < 64 implies #[trigger] bit(pin_mask, t) == exists|a: int| 0 <= a < 64
            && #[trigger] bit(attackers, a) && one_between(occupied, a, k) && toward(a, k, t) by {
            if bit(pin_mask, t) {
                let j = choose|j: int| 0 <= j < i && one_between(occupied, #[trigger] sq[j], k) && toward(sq[j], k, t);
                assert(bit(attackers, sq[j]));
            }
            if exists|a: int| 0 <= a < 64 && #[trigger] bit(attackers, a) && one_between(occupied, a, k) && toward(a, k, t) {
                let a = choose|a: int| 0 <= a < 64 && #[trigger] bit(attackers, a) && one_between(occupied, a, k) && toward(a, k, t);
                lemma_set_squares_has(attackers, a);
                let j = choose|j: int| 0 <= j < sq.len() && sq[j] == a;
                assert(one_between(occupied, sq[j], k) && toward(sq[j], k, t));
            }
        }
    }
    (check_mask, pin_mask)
}

impl CheckPinMask {
    /// The check mask and the pin lines on the king of side `color`.
    pub fn pins_on(color: PlayerColor, board: &BitBoard) -> (r: CheckPinMask)
        requires
            board.wf(),
            exists|k: int| 0 <= k < 64 && board@[k] == colored_piece(PieceType::King, color),
        ensures
            forall|t: int| 0 <= t < 64 ==> #[trigger] bit(r.check, t) == check_square(*board, color, king_of(*board, color), t),
            forall|t: int| 0 <= t < 64 ==> #[trigger] bit(r.diag, t) == diagonal_pin_square(*board, color, king_of(*board, color), t),
            forall|t: int| 0 <= t < 64 ==> #[trigger] bit(r.ortho, t) == orthogonal_pin_square(*board, color, king_of(*board, color), t),
    {
        let opposing_pieces = match color {
            PlayerColor::White => board.black_piece,
            PlayerColor::Black => board.white_piece,
        };
        let occupied = board.white_piece | board.black_piece;
        let king = board.king_position(color);
        let ghost k = king as int;
        let ghost b = *board;
        proof {
            assert(opposing_pieces == b.side(other(color)));
            assert forall|t: int| 0 <= t < 64 implies #[trigger] bit(u64::MAX, t) by {
                crate::board::bit_array::lemma_bit_full(t);
            }
        }

        //Diagonal sliders
        let diag_lines = diagonal_moves(king);
        let diagonal_attackers = board.diagonal_slider & opposing_pieces & diag_lines;
        proof {
            assert forall|a: int| 0 <= a < 64 implies #[trigger] bit(diagonal_attackers, a) == diagonal_attacker(b, color, k, a) by {
                lemma_bit_and(board.diagonal_slider & opposing_pieces, diag_lines, a);
                lemma_bit_and(board.diagonal_slider, opposing_pieces, a);
            }
        }
        let (check_mask, diagonal_mask) = scan_sliders(diagonal_attackers, king, occupied, u64::MAX);

        //Orthogonal sliders
        let ortho_lines = orthogonal_moves(king);
        let orthogonal_attackers = board.orthogonal_slider & opposing_pieces & ortho_lines;
        proof {
            assert forall|a: int| 0 <= a < 64 implies #[trigger] bit(orthogonal_attackers, a) == orthogonal_attacker(b, color, k, a) by {
                lemma_bit_and(board.orthogonal_slider & opposing_pieces, ortho_lines, a);
                lemma_bit_and(board.orthogonal_slider, opposing_pieces, a);
            }
        }
        let (check_mask2, orthogonal_mask) = scan_sliders(orthogonal_attackers, king, occupied, check_mask);
        let mut check = check_mask2;

        //Knights
        let knight_squares = knight_moves(king);
        let knights = board.knight & opposing_pieces & knight_squares;
        proof {
            assert forall|a: int| 0 <= a < 64 implies #[trigger] bit(knights, a) == knight_checker(b, color, k, a) by {
                lemma_bit_and(board.knight & opposing_pieces, knight_squares, a);
                lemma_bit_and(board.knight, opposing_pieces, a);
            }
        }
        if knights != 0 {
            let ghost before = check;
            check = check & knights;
            proof {
                assert forall|t: int| 0 <= t < 64 implies #[trigger] bit(check, t) == (bit(before, t) && knight_checker(b, color, k, t)) by {
                    lemma_bit_and(before, knights, t);
                }
                crate::board::bit_array::lemma_nonzero(knights);
            }
        } else {
            proof {
                assert forall|a: int| 0 <= a < 64 implies !#[trigger] knight_checker(b, color, k, a) by {
                    lemma_bit_zero(a);
                    assert(!bit(knights, a));
                }
            }
        }
        let ghost after_knights = check;

        //Pawns
        let pawn_squares = pawn_attacks(color, king);
        let pawns = board.pawn & opposing_pieces & pawn_squares;
        proof {
            assert forall|a: int| 0 <= a < 64 implies #[trigger] bit(pawns, a) == pawn_checker(b, color, k, a) by {
                lemma_bit_and(board.pawn & opposing_pieces, pawn_squares, a);
                lemma_bit_and(board.pawn, opposing_pieces, a);
            }
        }
        if pawns != 0 {
            check = check & pawns;
            proof {
                assert forall|t: int| 0 <= t < 64 implies #[trigger] bit(check, t) == (bit(after_knights, t) && pawn_checker(b, color, k, t)) by {
                    lemma_bit_and(after_knights, pawns, t);
                }
                crate::board::bit_array::lemma_nonzero(pawns);
            }
        } else {
            proof {
                assert forall|a: int| 0 <= a < 64 implies !#[trigger] pawn_checker(b, color, k, a) by {
                    lemma_bit_zero(a);
                    assert(!bit(pawns, a));
                }
            }
        }
        proof {
            assert(king_square(board@, color, k));
            assert forall|t: int| 0 <= t < 64 implies {
                &&& #[trigger] bit(check, t) == check_square(b, color, k, t)
                &&& bit(diagonal_mask, t) == diagonal_pin_square(b, color, k, t)
                &&& bit(orthogonal_mask, t) == orthogonal_pin_square(b, color, k, t)
            } by {
                if bit(check, t) {
                    assert forall|a: int| 0 <= a < 64 && #[trigger] slider_checker(b, color, k, a) implies toward(a, k, t) by {
                        if diagonal_attacker(b, color, k, a) {
                            assert(bit(diagonal_attackers, a));
                        } else {
                            assert(bit(orthogonal_attackers, a));
                        }
                    }
                }
                if check_square(b, color, k, t) {
                    assert forall|a: int| 0 <= a < 64 && bit(diagonal_attackers, a) && nothing_between(occupied, a, k)
                        implies #[trigger] toward(a, k, t) by {
                        assert(slider_checker(b, color, k, a));
                    }
                    assert forall|a: int| 0 <= a < 64 && bit(orthogonal_attackers, a) && nothing_between(occupied, a, k)
                        implies #[trigger] toward(a, k, t) by {
                        assert(slider_checker(b, color, k, a));
                    }
                }
                if diagonal_pin_square(b, color, k, t) {
                    let a = choose|a: int| 0 <= a < 64 && #[trigger] diagonal_attacker(b, color, k, a)
                        && one_between(b.occupied(), a, k) && toward(a, k, t);
                    assert(bit(diagonal_attackers, a));
                }
                if bit(diagonal_mask, t) {
                    let a = choose|a: int| 0 <= a < 64 && #[trigger] bit(diagonal_attackers, a)
                        && one_between(occupied, a, k) && toward(a, k, t);
                    assert(diagonal_attacker(b, color, k, a));
                }
                if orthogonal_pin_square(b, color, k, t) {
                    let a = choose|a: int| 0 <= a < 64 && #[trigger] orthogonal_attacker(b, color, k, a)
                        && one_between(b.occupied(), a, k) && toward(a, k, t);
                    assert(bit(orthogonal_attackers, a));
                }
                if bit(orthogonal_mask, t) {
                    let a = choose|a: int| 0 <= a < 64 && #[trigger] bit(orthogonal_attackers, a)
                        && one_between(occupied, a, k) && toward(a, k, t);
                    assert(orthogonal_attacker(b, color, k, a));
                }
            }
        }
        proof {
            assert forall|t: int| 0 <= t < 64 implies #[trigger] bit(diagonal_mask, t) == diagonal_pin_square(b, color, k, t) by {
                assert(bit(check, t) == check_square(b, color, k, t));
            }
            assert forall|t: int| 0 <= t < 64 implies #[trigger] bit(orthogonal_mask, t) == orthogonal_pin_square(b, color, k, t) by {
                assert(bit(check, t) == check_square(b, color, k, t));
            }
        }
        CheckPinMask { ortho: orthogonal_mask, diag: diagonal_mask, check }
    }
}

} // verus!
