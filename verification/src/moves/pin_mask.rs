use vstd::prelude::*;
use crate::board::bit_array::{bit, count_bits, lemma_bit_and, lemma_bit_or, lemma_bit_zero, lemma_set_squares_are_set, lemma_set_squares_has, set_squares, BitArray};
use crate::board::bit_array_lookup::{between, diagonal_moves, in_between, orthogonal_moves};
use crate::board::bit_board::{king_of, king_square, BitBoard};
use crate::board::piece_type::{colored_piece, PieceType};
use crate::board::player_color::PlayerColor;
use crate::moves::check_pin_mask::{diagonal_attacker, lemma_count_one, one_between, orthogonal_attacker};

verus! {

/// Square `t` lies between the king of `color` on `k` and a diagonal slider that pins a piece
/// of `color` to it: exactly one piece stands between them, and it is of `color`.
pub open spec fn diagonal_pin_line(b: BitBoard, color: PlayerColor, k: int, t: int) -> bool {
    exists|a: int| 0 <= a < 64 && #[trigger] diagonal_attacker(b, color, k, a)
        && one_between(b.occupied(), a, k) && one_between(b.side(color), a, k) && between(a, k, t)
}

/// Square `t` lies between the king of `color` on `k` and an orthogonal slider that pins a
/// piece of `color` to it.
pub open spec fn orthogonal_pin_line(b: BitBoard, color: PlayerColor, k: int, t: int) -> bool {
    exists|a: int| 0 <= a < 64 && #[trigger] orthogonal_attacker(b, color, k, a)
        && one_between(b.occupied(), a, k) && one_between(b.side(color), a, k) && between(a, k, t)
}

/// The squares between the king of one side and the sliders that pin its pieces.
pub struct PinMask {
    pub orthogonal_mask: u64,
    pub diagonal_mask: u64,
}

/// The squares between the king on `king` and the sliders on `attackers` that pin a piece of
/// `allied` to it.
fn scan_pins(attackers: u64, king: i8, occupied: u64, allied: u64) -> (r: u64)
    requires
        0 <= king < 64,
    ensures
        forall|t: int| 0 <= t < 64 ==> #[trigger] bit(r, t) == exists|a: int| 0 <= a < 64
            && #[trigger] bit(attackers, a) && one_between(occupied, a, king as int)
            && one_between(allied, a, king as int) && between(a, king as int, t),
{
    let ghost k = king as int;
    let ghost sq = set_squares(attackers);
    let squares = attackers.iterate_set_bits_indices();
    let mut mask: u64 = 0;
    let mut i: usize = 0;
    proof {
        lemma_set_squares_are_set(attackers);
        assert forall|t: int| 0 <= t < 64 implies !#[trigger] bit(mask, t) by {
            lemma_bit_zero(t);
        }
    }
    while i < squares.len()
        invariant
            0 <= k < 64,
            k == king,
            sq == set_squares(attackers),
            squares@.len() == sq.len(),
            forall|j: int| 0 <= j < squares@.len() ==> squares@[j] == sq[j],
            forall|j: int| 0 <= j < sq.len() ==> 0 <= #[trigger] sq[j] < 64 && bit(attackers, sq[j]),
            i <= squares@.len(),
            forall|t: int| 0 <= t < 64 ==> #[trigger] bit(mask, t) == exists|j: int| 0 <= j < i
                && one_between(occupied, #[trigger] sq[j], k) && one_between(allied, sq[j], k) && between(sq[j], k, t),
        decreases squares@.len() - i,
    {
        let attacker = squares[i] as i8;
        let ghost a = sq[i as int];
        let between_bits = in_between(attacker, king);
        let ghost old_mask = mask;
        proof {
            lemma_count_one(occupied, between_bits, a, k);
            lemma_count_one(allied, between_bits, a, k);
        }
        if count_bits(between_bits & occupied) == 1 && count_bits(between_bits & allied) == 1 {
            mask = mask | between_bits;
            proof {
                assert forall|t: int| 0 <= t < 64 implies #[trigger] bit(mask, t) == exists|j: int| 0 <= j < i + 1
                    && one_between(occupied, #[trigger] sq[j], k) && one_between(allied, sq[j], k) && between(sq[j], k, t) by {
                    lemma_bit_or(old_mask, between_bits, t);
                    if exists|j: int| 0 <= j < i + 1 && one_between(occupied, #[trigger] sq[j], k) && one_between(allied, sq[j], k) && between(sq[j], k, t) {
                        let j = choose|j: int| 0 <= j < i + 1 && one_between(occupied, #[trigger] sq[j], k) && one_between(allied, sq[j], k) && between(sq[j], k, t);
                        if j < i {
                            assert(bit(old_mask, t));
                        }
                    }
                    if bit(between_bits, t) {
                        assert(between(sq[i as int], k, t));
                    }
                }
            }
        } else {
            proof {
                assert forall|t: int| 0 <= t < 64 implies #[trigger] bit(mask, t) == exists|j: int| 0 <= j < i + 1
                    && one_between(occupied, #[trigger] sq[j], k) && one_between(allied, sq[j], k) && between(sq[j], k, t) by {
                    if exists|j: int| 0 <= j < i + 1 && one_between(occupied, #[trigger] sq[j], k) && one_between(allied, sq[j], k) && between(sq[j], k, t) {
                        let j = choose|j: int| 0 <= j < i + 1 && one_between(occupied, #[trigger] sq[j], k) && one_between(allied, sq[j], k) && between(sq[j], k, t);
                        assert(j < i);
                    }
                }
            }
        }
        i = i + 1;
    }
    proof {
        assert forall|t: int| 0 <= t < 64 implies #[trigger] bit(mask, t) == exists|a: int| 0 <= a < 64
            && #[trigger] bit(attackers, a) && one_between(occupied, a, k) && one_between(allied, a, k) && between(a, k, t) by {
            if bit(mask, t) {
                let j = choose|j: int| 0 <= j < i && one_between(occupied, #[trigger] sq[j], k) && one_between(allied, sq[j], k) && between(sq[j], k, t);
                assert(bit(attackers, sq[j]));
            }
            if exists|a: int| 0 <= a < 64 && #[trigger] bit(attackers, a) && one_between(occupied, a, k) && one_between(allied, a, k) && between(a, k, t) {
                let a = choose|a: int| 0 <= a < 64 && #[trigger] bit(attackers, a) && one_between(occupied, a, k) && one_between(allied, a, k) && between(a, k, t);
                lemma_set_squares_has(attackers, a);
                let j = choose|j: int| 0 <= j < sq.len() && sq[j] == a;
                assert(one_between(occupied, sq[j], k) && one_between(allied, sq[j], k) && between(sq[j], k, t));
            }
        }
    }
    mask
}

impl PinMask {
    /// No pins.
    pub fn empty() -> (r: PinMask)
        ensures
            r.orthogonal_mask == 0,
            r.diagonal_mask == 0,
    {
        PinMask { orthogonal_mask: 0, diagonal_mask: 0 }
    }

    /// The lines on which pieces of side `color` are pinned to their king.
    #[verifier::rlimit(40)]
    pub fn pins_on(color: PlayerColor, board: &BitBoard) -> (r: PinMask)
        requires
            board.wf(),
            exists|k: int| 0 <= k < 64 && board@[k] == colored_piece(PieceType::King, color),
        ensures
            forall|t: int| 0 <= t < 64 ==> #[trigger] bit(r.diagonal_mask, t) == diagonal_pin_line(*board, color, king_of(*board, color), t),
            forall|t: int| 0 <= t < 64 ==> #[trigger] bit(r.orthogonal_mask, t) == orthogonal_pin_line(*board, color, king_of(*board, color), t),
    {
        let opposing_pieces = match color {
            PlayerColor::White => board.black_piece,
            PlayerColor::Black => board.white_piece,
        };
        let allied_pieces = match color {
            PlayerColor::White => board.white_piece,
            PlayerColor::Black => board.black_piece,
        };
        let occupied = board.white_piece | board.black_piece;
        let king = board.king_position(color);
        let ghost k = king as int;
        let ghost b = *board;

        let diag_lines = diagonal_moves(king);
        let diagonal_attackers = board.diagonal_slider & opposing_pieces & diag_lines;
        proof {
            assert forall|a: int| 0 <= a < 64 implies #[trigger] bit(diagonal_attackers, a) == diagonal_attacker(b, color, k, a) by {
                lemma_bit_and(board.diagonal_slider & opposing_pieces, diag_lines, a);
                lemma_bit_and(board.diagonal_slider, opposing_pieces, a);
            }
        }
        let diagonal_mask = scan_pins(diagonal_attackers, king, occupied, allied_pieces);

        let ortho_lines = orthogonal_moves(king);
        let orthogonal_attackers = board.orthogonal_slider & opposing_pieces & ortho_lines;
        proof {
            assert forall|a: int| 0 <= a < 64 implies #[trigger] bit(orthogonal_attackers, a) == orthogonal_attacker(b, color, k, a) by {
                lemma_bit_and(board.orthogonal_slider & opposing_pieces, ortho_lines, a);
                lemma_bit_and(board.orthogonal_slider, opposing_pieces, a);
            }
        }
        let orthogonal_mask = scan_pins(orthogonal_attackers, king, occupied, allied_pieces);
        proof {
            assert(king_square(board@, color, k));
            assert forall|t: int| 0 <= t < 64 implies {
                &&& #[trigger] bit(diagonal_mask, t) == diagonal_pin_line(b, color, k, t)
                &&& bit(orthogonal_mask, t) == orthogonal_pin_line(b, color, k, t)
            } by {
                if diagonal_pin_line(b, color, k, t) {
                    let a = choose|a: int| 0 <= a < 64 && #[trigger] diagonal_attacker(b, color, k, a)
                        && one_between(b.occupied(), a, k) && one_between(b.side(color), a, k) && between(a, k, t);
                    assert(bit(diagonal_attackers, a));
                }
                if bit(diagonal_mask, t) {
                    let a = choose|a: int| 0 <= a < 64 && #[trigger] bit(diagonal_attackers, a) && one_between(occupied, a, k)
                        && one_between(allied_pieces, a, k) && between(a, k, t);
                    assert(diagonal_attacker(b, color, k, a));
                }
                if orthogonal_pin_line(b, color, k, t) {
                    let a = choose|a: int| 0 <= a < 64 && #[trigger] orthogonal_attacker(b, color, k, a)
                        && one_between(b.occupied(), a, k) && one_between(b.side(color), a, k) && between(a, k, t);
                    assert(bit(orthogonal_attackers, a));
                }
                if bit(orthogonal_mask, t) {
                    let a = choose|a: int| 0 <= a < 64 && #[trigger] bit(orthogonal_attackers, a) && one_between(occupied, a, k)
                        && one_between(allied_pieces, a, k) && between(a, k, t);
                    assert(orthogonal_attacker(b, color, k, a));
                }
            }
        }
        proof {
            assert forall|t: int| 0 <= t < 64 implies #[trigger] bit(orthogonal_mask, t) == orthogonal_pin_line(b, color, k, t) by {
                assert(bit(diagonal_mask, t) == diagonal_pin_line(b, color, k, t));
            }
        }
        PinMask { orthogonal_mask, diagonal_mask }
    }
}

} // verus!
