use vstd::prelude::*;
use crate::board::bit_array::{bit, count_bits, lemma_bit_and, lemma_bit_not, lemma_bit_or, lemma_bit_single, lemma_bit_zero, lemma_bits_ext, lemma_set_squares_are_set, lemma_set_squares_has, pop, set_squares, squares_from, translated_bit, lemma_set_squares_len, BitArray, mask_of, lemma_mask_of, lemma_mask_of_exists, lemma_pop_below_disjoint, lemma_pop_below_ext, lemma_pop_single, group_bit_lemmas};
use crate::board::bit_array_lookup::{between, in_between, king_moves, king_step, orthogonal_line, orthogonal_moves, row};
use crate::board::bit_board::{attacked_through_king, king_of, king_square, BitBoard};
use crate::board::piece_type::{color_of, colored_piece, ColoredPieceType, PieceType};
use crate::board::player_color::{other, PlayerColor};
use crate::board::square::{rank_of, valid_square, Square};
use crate::game::board_state::BoardState;
use crate::game::game_flags::GameFlags;
use crate::moves::check_pin_mask::{check_square, diagonal_pin_square, orthogonal_pin_square, CheckPinMask};
use crate::moves::chess_move::ChessMove;
use crate::moves::move_vector::{move_items, new_move_vector, push_move, MoveVector};
use crate::moves::move_iterator::{pawn_move_count, pop_sum, MoveIterator};
use crate::moves::slider_gen::{bishop_kogge, gen_bishop_moves_kogge, gen_rook_moves_kogge, rook_kogge, bishop_target, rook_target, blocker_mask, gen_bishop_moves_pext, gen_rook_moves_pext, law_bishop_kogge_matches_walk, law_bishop_pext_matches_walk, law_rook_kogge_matches_walk, law_rook_pext_matches_walk, SliderTables};
use crate::board::bit_array_lookup::{knight_moves, knight_step};
use crate::board::piece_board::PieceBoard;

verus! {

/// A bitboard moved by `dx` files and `dy` ranks, squares that leave the board dropped.
pub open spec fn shifted(b: u64, dx: int, dy: int) -> u64 {
    mask_of(|t: int| translated_bit(b, dx, dy, t))
}

/// The rank direction in which the pawns of side `c` move.
pub open spec fn pawn_dy(c: PlayerColor) -> int {
    if c == PlayerColor::White {
        1
    } else {
        -1
    }
}

/// The squares of the check mask of the king of `c`.
pub open spec fn check_mask(b: BitBoard, c: PlayerColor) -> u64 {
    mask_of(|t: int| check_square(b, c, king_of(b, c), t))
}

/// The squares of the diagonal pins of the king of `c`.
pub open spec fn diag_mask(b: BitBoard, c: PlayerColor) -> u64 {
    mask_of(|t: int| diagonal_pin_square(b, c, king_of(b, c), t))
}

/// The squares of the orthogonal pins of the king of `c`.
pub open spec fn ortho_mask(b: BitBoard, c: PlayerColor) -> u64 {
    mask_of(|t: int| orthogonal_pin_square(b, c, king_of(b, c), t))
}

/// The squares strictly between `a` and `k`.
pub open spec fn between_mask(a: int, k: int) -> u64 {
    mask_of(|u: int| between(a, k, u))
}

/// An orthogonal slider of the side other than `c` on the rank of the pawns that may take en
/// passant, on the king's rank or file.
pub open spec fn ep_rank_attacker(b: BitBoard, c: PlayerColor, k: int, a: int) -> bool {
    &&& rank_of(a) == (if c == PlayerColor::White { 4int } else { 3int })
    &&& bit(b.orthogonal_slider & b.side(other(c)), a)
    &&& orthogonal_line(k, a)
}

/// The en passant square may be taken: it is the flags' square, the pawn that would take is
/// not behind it on a diagonal pin, and no rank attacker would see the king once the two
/// pawns between them left.
pub open spec fn ep_square_ok(b: BitBoard, f: GameFlags, t: int) -> bool {
    let c = f.active_color;
    let k = king_of(b, c);
    let occ = b.white_piece | b.black_piece;
    let dy = pawn_dy(c);
    &&& valid_square(f.en_passant_square as int)
    &&& t == f.en_passant_square
    &&& !translated_bit(diag_mask(b, c), 0, dy, t)
    &&& forall|a: int| 0 <= a < 64 && #[trigger] ep_rank_attacker(b, c, k, a) && pop(between_mask(a, k) & occ) == 2
        ==> !translated_bit(between_mask(a, k) & occ, 0, dy, t)
}

/// The squares attacked by side `attacker` once the other king is off the board.
pub open spec fn attacked_mask(b: BitBoard, attacker: PlayerColor) -> u64 {
    mask_of(|t: int| attacked_through_king(b, attacker, t))
}

/// The squares of the fourth (white) or fifth (black) rank, where double pushes end.
pub open spec fn double_push_rank(c: PlayerColor) -> u64 {
    mask_of(|t: int| rank_of(t) == (if c == PlayerColor::White { 3int } else { 4int }))
}

/// The bitboards from which the legal moves are read: pawn targets by kind of move, the
/// squares of the pieces that move by kind and pin, the king's targets and its castlings.
#[derive(Clone, Copy, PartialEq, Eq, Structural)]
pub struct LegalMasks {
    pub check: u64,
    pub diag: u64,
    pub ortho: u64,
    pub left_pinned: u64,
    pub right_pinned: u64,
    pub left_free: u64,
    pub right_free: u64,
    pub push_pinned: u64,
    pub push_free: u64,
    pub double_pinned: u64,
    pub double_free: u64,
    pub knights: u64,
    pub diag_pinned: u64,
    pub diag_free: u64,
    pub ortho_pinned: u64,
    pub ortho_free: u64,
    pub king: i8,
    pub king_targets: u64,
    pub queen_castle: bool,
    pub king_castle: bool,
}

/// The masks of the legal moves of the side to move in position `b` with flags `f`.
pub open spec fn legal_masks_spec(b: BitBoard, f: GameFlags) -> LegalMasks {
    let c = f.active_color;
    let allied = b.side(c);
    let opponent = b.side(other(c));
    let occupied = b.white_piece | b.black_piece;
    let empty = !occupied;
    let chk = check_mask(b, c);
    let dg = diag_mask(b, c);
    let og = ortho_mask(b, c);
    let dy = pawn_dy(c);
    let pawns = b.pawn & allied;
    let ep = mask_of(|t: int| ep_square_ok(b, f, t));
    let pawn_targets = (opponent | ep) & chk | (ep & shifted(chk, 0, dy));
    let attack_pawns = pawns & !og;
    let pinned_attackers = attack_pawns & dg;
    let free_attackers = attack_pawns & !dg;
    let pushable = pawns & !dg;
    let double_mask = chk & double_push_rank(c) & empty;
    let k = king_of(b, c);
    let attacked = attacked_mask(b, other(c));
    let tr: int = if c == PlayerColor::White { 0 } else { 7 };
    let (king_side, queen_side) = if c == PlayerColor::White {
        (f.white_king_side_castle, f.white_queen_side_castle)
    } else {
        (f.black_king_side_castle, f.black_queen_side_castle)
    };
    LegalMasks {
        check: chk,
        diag: dg,
        ortho: og,
        left_pinned: pawn_targets & shifted(pinned_attackers, -1, dy) & dg,
        right_pinned: pawn_targets & shifted(pinned_attackers, 1, dy) & dg,
        left_free: pawn_targets & shifted(free_attackers, -1, dy),
        right_free: pawn_targets & shifted(free_attackers, 1, dy),
        push_pinned: empty & shifted(pushable & og, 0, dy) & og & chk,
        push_free: empty & shifted(pushable & !og, 0, dy) & chk,
        double_pinned: double_mask & shifted(shifted(pushable & og, 0, dy) & empty, 0, dy) & og,
        double_free: double_mask & shifted(shifted(pushable & !og, 0, dy) & empty, 0, dy),
        knights: b.knight & allied & !dg & !og,
        diag_pinned: b.diagonal_slider & allied & !og & dg,
        diag_free: b.diagonal_slider & allied & !og & !dg,
        ortho_pinned: b.orthogonal_slider & allied & !dg & og,
        ortho_free: b.orthogonal_slider & allied & !dg & !og,
        king: k as i8,
        king_targets: mask_of(|t: int| king_step(k, t)) & !allied & !attacked,
        queen_castle: chk == u64::MAX && queen_side && occupied & shifted(14, 0, tr) == 0
            && shifted(12, 0, tr) & attacked == 0,
        king_castle: chk == u64::MAX && king_side && occupied & shifted(96, 0, tr) == 0
            && shifted(96, 0, tr) & attacked == 0,
    }
}

/// The side to move has a king in the position.
pub open spec fn has_king(b: BitBoard, c: PlayerColor) -> bool {
    exists|k: int| 0 <= k < 64 && b@[k] == colored_piece(PieceType::King, c)
}

/// A bitboard moved by `dx` files and `dy` ranks.
pub(crate) fn shift(b: u64, dx: i8, dy: i8) -> (r: u64)
    requires
        -7 <= dx <= 7,
        -7 <= dy <= 7,
    ensures
        r == shifted(b, dx as int, dy as int),
        forall|t: int| #[trigger] bit(r, t) == translated_bit(b, dx as int, dy as int, t),
{
    let r = b.translate(dx, dy);
    proof {
        lemma_mask_of(|t: int| translated_bit(b, dx as int, dy as int, t), r);
    }
    r
}

/// A bitboard moved by `dy` ranks.
pub(crate) fn shift_vertical(b: u64, dy: i8) -> (r: u64)
    requires
        -7 <= dy <= 7,
    ensures
        r == shifted(b, 0, dy as int),
        forall|t: int| #[trigger] bit(r, t) == translated_bit(b, 0, dy as int, t),
{
    let r = b.translate_vertical(dy);
    proof {
        lemma_mask_of(|t: int| translated_bit(b, 0, dy as int, t), r);
    }
    r
}

/// The en passant target bitboard: the flags' square, unless the taking pawn is diagonally
/// pinned behind it or a rank attacker would see the king once both pawns leave the rank.
fn ep_bits(board: &BitBoard, flags: &GameFlags, diag: u64, king_square: i8, occupied: u64, opponent: u64) -> (r: u64)
    requires
        board.wf(),
        0 <= king_square < 64,
        king_square == king_of(*board, flags.active_color),
        diag == diag_mask(*board, flags.active_color),
        occupied == board.white_piece | board.black_piece,
        opponent == board.side(other(flags.active_color)),
    ensures
        r == mask_of(|t: int| ep_square_ok(*board, *flags, t)),
{
    let ghost b = *board;
    let ghost c = flags.active_color;
    let ghost k = king_square as int;
    let dy: i8 = match flags.active_color {
        PlayerColor::White => 1,
        PlayerColor::Black => -1,
    };
    let ep_square: u64 = if flags.en_passant_square.is_valid_square() {
        flags.en_passant_square.bit_array()
    } else {
        0
    };
    let pinned_behind = shift_vertical(diag, dy);
    let mut ep_bit = ep_square & !pinned_behind;
    let row_index: i8 = match flags.active_color {
        PlayerColor::White => 4,
        PlayerColor::Black => 3,
    };
    let rank_squares = row(row_index);
    let lines = orthogonal_moves(king_square);
    let hz_attacker = rank_squares & board.orthogonal_slider & opponent & lines;
    proof {
        assert forall|a: int| 0 <= a < 64 implies #[trigger] bit(hz_attacker, a) == ep_rank_attacker(b, c, k, a) by {
            lemma_bit_and(rank_squares & board.orthogonal_slider & opponent, lines, a);
            lemma_bit_and(rank_squares & board.orthogonal_slider, opponent, a);
            lemma_bit_and(rank_squares, board.orthogonal_slider, a);
            lemma_bit_and(board.orthogonal_slider, opponent, a);
        }
    }
    let ghost sq = set_squares(hz_attacker);
    let squares = hz_attacker.iterate_set_bits_indices();
    let mut i: usize = 0;
    proof {
        lemma_set_squares_are_set(hz_attacker);
        assert forall|t: int| 0 <= t < 64 implies #[trigger] bit(ep_bit, t) == (valid_square(flags.en_passant_square as int)
            && t == flags.en_passant_square && !translated_bit(diag, 0, dy as int, t)) by {
            lemma_bit_and(ep_square, !pinned_behind, t);
            lemma_bit_not(pinned_behind, t);
            lemma_bit_zero(t);
        }
    }
    while i < squares.len()
        invariant
            b == *board,
            0 <= k < 64,
            k == king_square,
            occupied == board.white_piece | board.black_piece,
            dy == pawn_dy(c),
            c == flags.active_color,
            sq == set_squares(hz_attacker),
            squares@.len() == sq.len(),
            forall|j: int| 0 <= j < squares@.len() ==> squares@[j] == sq[j],
            forall|j: int| 0 <= j < sq.len() ==> 0 <= #[trigger] sq[j] < 64 && bit(hz_attacker, sq[j]),
            i <= squares@.len(),
            forall|t: int| 0 <= t < 64 ==> #[trigger] bit(ep_bit, t) == (valid_square(flags.en_passant_square as int)
                && t == flags.en_passant_square && !translated_bit(diag, 0, dy as int, t)
                && forall|j: int| 0 <= j < i && pop(between_mask(#[trigger] sq[j], k) & occupied) == 2
                    ==> !translated_bit(between_mask(sq[j], k) & occupied, 0, dy as int, t)),
        decreases squares@.len() - i,
    {
        let attacker = squares[i];
        assert(attacker == sq[i as int]);
        let between_bits = in_between(attacker as i8, king_square);
        proof {
            lemma_mask_of(|u: int| between(sq[i as int], k, u), between_bits);
        }
        let ghost old_ep = ep_bit;
        if count_bits(between_bits & occupied) == 2 {
            let intersection = between_bits & occupied;
            let behind = shift_vertical(intersection, dy);
            ep_bit = ep_bit & !behind;
            proof {
                assert forall|t: int| 0 <= t < 64 implies #[trigger] bit(ep_bit, t) == (valid_square(flags.en_passant_square as int)
                    && t == flags.en_passant_square && !translated_bit(diag, 0, dy as int, t)
                    && forall|j: int| 0 <= j < i + 1 && pop(between_mask(#[trigger] sq[j], k) & occupied) == 2
                        ==> !translated_bit(between_mask(sq[j], k) & occupied, 0, dy as int, t)) by {
                    lemma_bit_and(old_ep, !behind, t);
                    lemma_bit_not(behind, t);
                }
            }
        } else {
            proof {
                assert forall|t: int| 0 <= t < 64 implies #[trigger] bit(ep_bit, t) == (valid_square(flags.en_passant_square as int)
                    && t == flags.en_passant_square && !translated_bit(diag, 0, dy as int, t)
                    && forall|j: int| 0 <= j < i + 1 && pop(between_mask(#[trigger] sq[j], k) & occupied) == 2
                        ==> !translated_bit(between_mask(sq[j], k) & occupied, 0, dy as int, t)) by {
                    assert(bit(old_ep, t) == bit(ep_bit, t));
                }
            }
        }
        i = i + 1;
    }
    proof {
        assert forall|t: int| 0 <= t < 64 implies #[trigger] bit(ep_bit, t) == ep_square_ok(b, *flags, t) by {
            if bit(ep_bit, t) {
                assert forall|a: int| 0 <= a < 64 && #[trigger] ep_rank_attacker(b, c, k, a) && pop(between_mask(a, k) & occupied) == 2
                    implies !translated_bit(between_mask(a, k) & occupied, 0, dy as int, t) by {
                    assert(bit(hz_attacker, a));
                    lemma_set_squares_has(hz_attacker, a);
                    let j = choose|j: int| 0 <= j < sq.len() && sq[j] == a;
                    assert(pop(between_mask(sq[j], k) & occupied) == 2);
                }
            }
            if ep_square_ok(b, *flags, t) {
                assert forall|j: int| 0 <= j < i && pop(between_mask(#[trigger] sq[j], k) & occupied) == 2
                    implies !translated_bit(between_mask(sq[j], k) & occupied, 0, dy as int, t) by {
                    assert(ep_rank_attacker(b, c, k, sq[j]));
                }
            }
        }
        lemma_mask_of(|t: int| ep_square_ok(b, *flags, t), ep_bit);
    }
    ep_bit
}

/// The masks of the legal moves of the side to move.
#[verifier::rlimit(60)]
pub fn legal_masks(board: &BitBoard, flags: &GameFlags) -> (r: LegalMasks)
    requires
        board.wf(),
        has_king(*board, flags.active_color),
    ensures
        r == legal_masks_spec(*board, *flags),
        forall|t: int| 0 <= t < 64 ==> #[trigger] bit(r.ortho, t)
            == orthogonal_pin_square(*board, flags.active_color, king_of(*board, flags.active_color), t),
        forall|t: int| 0 <= t < 64 ==> #[trigger] bit(r.check, t)
            == check_square(*board, flags.active_color, king_of(*board, flags.active_color), t),
        forall|t: int| 0 <= t < 64 ==> #[trigger] bit(r.diag, t)
            == diagonal_pin_square(*board, flags.active_color, king_of(*board, flags.active_color), t),
        0 <= r.king < 64,
        r.king == king_of(*board, flags.active_color),
{
    let ghost b = *board;
    let moving_color = flags.active_color;
    let ghost c = moving_color;
    let occupied = board.white_piece | board.black_piece;
    let empty = !occupied;
    let allied = match moving_color {
        PlayerColor::White => board.white_piece,
        PlayerColor::Black => board.black_piece,
    };
    let opponent = match moving_color {
        PlayerColor::White => board.black_piece,
        PlayerColor::Black => board.white_piece,
    };
    assert(allied == b.side(c) && opponent == b.side(other(c)));
    let pin_mask = CheckPinMask::pins_on(moving_color, board);
    proof {
        let k = king_of(b, c);
        b.lemma_king_of_bit(c);
        crate::board::bit_array::lemma_nonzero(allied & board.king);
        lemma_mask_of(|t: int| check_square(b, c, king_of(b, c), t), pin_mask.check);
        lemma_mask_of(|t: int| diagonal_pin_square(b, c, king_of(b, c), t), pin_mask.diag);
        lemma_mask_of(|t: int| orthogonal_pin_square(b, c, king_of(b, c), t), pin_mask.ortho);
    }
    let king_sq = (allied & board.king).lowest_square_index() as i8;
    assert(king_sq == king_of(b, c));
    let chk = pin_mask.check;
    let dg = pin_mask.diag;
    let og = pin_mask.ortho;

    //Pawns
    let pawns = board.pawn & allied;
    let dy: i8 = match moving_color {
        PlayerColor::White => 1,
        PlayerColor::Black => -1,
    };
    let double_rank = match moving_color {
        PlayerColor::White => row(3),
        PlayerColor::Black => row(4),
    };
    proof {
        lemma_mask_of(|t: int| rank_of(t) == (if c == PlayerColor::White { 3int } else { 4int }), double_rank);
    }
    let ep_bit = ep_bits(board, flags, dg, king_sq, occupied, opponent);
    let check_behind = shift_vertical(chk, dy);
    let pawn_targets = (opponent | ep_bit) & chk | (ep_bit & check_behind);
    let attack_pawns = pawns & !og;
    let pinned_attackers = attack_pawns & dg;
    let free_attackers = attack_pawns & !dg;
    let left_pinned = pawn_targets & shift(pinned_attackers, -1, dy) & dg;
    let right_pinned = pawn_targets & shift(pinned_attackers, 1, dy) & dg;
    let left_free = pawn_targets & shift(free_attackers, -1, dy);
    let right_free = pawn_targets & shift(free_attackers, 1, dy);
    let pushable = pawns & !dg;
    let push_pinned = empty & shift_vertical(pushable & og, dy) & og & chk;
    let push_free = empty & shift_vertical(pushable & !og, dy) & chk;
    let double_mask = chk & double_rank & empty;
    let double_pinned = double_mask & shift_vertical(shift_vertical(pushable & og, dy) & empty, dy) & og;
    let double_free = double_mask & shift_vertical(shift_vertical(pushable & !og, dy) & empty, dy);

    //Knights and sliders
    let knights = board.knight & allied & !dg & !og;
    let diag_pinned = board.diagonal_slider & allied & !og & dg;
    let diag_free = board.diagonal_slider & allied & !og & !dg;
    let ortho_pinned = board.orthogonal_slider & allied & !dg & og;
    let ortho_free = board.orthogonal_slider & allied & !dg & !og;

    //King
    let king_steps = king_moves(king_sq);
    let attacked_squares = board.attacked_bits_through_king(core::ops::Not::not(moving_color));
    proof {
        lemma_mask_of(|t: int| king_step(king_sq as int, t), king_steps);
        lemma_mask_of(|t: int| attacked_through_king(b, other(c), t), attacked_squares);
    }
    let king_targets = king_steps & !allied & !attacked_squares;
    let translation: i8 = match moving_color {
        PlayerColor::White => 0,
        PlayerColor::Black => 7,
    };
    let queen_side_blocker = shift_vertical(14, translation);
    let king_side_blocker = shift_vertical(96, translation);
    let queen_side_squares = shift_vertical(12, translation);
    let (king_side, queen_side) = match moving_color {
        PlayerColor::White => (flags.white_king_side_castle, flags.white_queen_side_castle),
        PlayerColor::Black => (flags.black_king_side_castle, flags.black_queen_side_castle),
    };
    let mut queen_castle = false;
    let mut king_castle = false;
    if chk == u64::MAX {
        if queen_side && (occupied & queen_side_blocker) == 0 {
            if (queen_side_squares & attacked_squares) == 0 {
                queen_castle = true;
            }
        }
        if king_side && (occupied & king_side_blocker) == 0 {
            if (king_side_blocker & attacked_squares) == 0 {
                king_castle = true;
            }
        }
    }
    let r = LegalMasks {
        check: chk,
        diag: dg,
        ortho: og,
        left_pinned,
        right_pinned,
        left_free,
        right_free,
        push_pinned,
        push_free,
        double_pinned,
        double_free,
        knights,
        diag_pinned,
        diag_free,
        ortho_pinned,
        ortho_free,
        king: king_sq,
        king_targets,
        queen_castle,
        king_castle,
    };
    assert(r == legal_masks_spec(b, *flags));
    r
}

/// The items for the targets `ts`, in order, `f(t)` for each target `t`.
pub open spec fn flat<A>(ts: Seq<int>, f: spec_fn(int) -> Seq<A>) -> Seq<A>
    decreases ts.len(),
{
    if ts.len() == 0 {
        Seq::empty()
    } else {
        flat(ts.drop_last(), f) + f(ts.last())
    }
}

/// The items of two target lists one after the other.
pub proof fn lemma_flat_concat<A>(a: Seq<int>, b: Seq<int>, f: spec_fn(int) -> Seq<A>)
    ensures
        flat(a + b, f) == flat(a, f) + flat(b, f),
    decreases b.len(),
{
    if b.len() == 0 {
        assert(a + b =~= a);
        assert(flat(a, f) + flat(b, f) =~= flat(a, f));
    } else {
        assert((a + b).drop_last() =~= a + b.drop_last());
        lemma_flat_concat(a, b.drop_last(), f);
        assert(flat(a, f) + flat(b, f) =~= flat(a, f) + flat(b.drop_last(), f) + f(b.last()));
    }
}

/// One more target: its items come after those of the targets before it, and no further than
/// the items of all targets go.
pub proof fn lemma_flat_step<A>(ts: Seq<int>, i: int, f: spec_fn(int) -> Seq<A>)
    requires
        0 <= i < ts.len(),
    ensures
        flat(ts.take(i + 1), f) == flat(ts.take(i), f) + f(ts[i]),
        flat(ts.take(i + 1), f).len() <= flat(ts, f).len(),
{
    assert(ts.take(i + 1).drop_last() =~= ts.take(i));
    assert(ts =~= ts.take(i + 1) + ts.skip(i + 1));
    lemma_flat_concat(ts.take(i + 1), ts.skip(i + 1), f);
}

/// The moves of a pawn of `pt` from `s` to `t`: the four promotions on the first and last
/// ranks (queen, rook, bishop, knight), one move elsewhere.
pub open spec fn pawn_moves_to(s: int, t: int, pt: ColoredPieceType, v: Seq<ColoredPieceType>) -> Seq<ChessMove> {
    let promo = |x: PieceType| ChessMove {
        start: s as i8,
        end: t as i8,
        move_piece: pt,
        captured_piece: v[t],
        promotion_piece: colored_piece(x, color_of(pt)),
    };
    if rank_of(t) == 0 || rank_of(t) == 7 {
        seq![promo(PieceType::Queen), promo(PieceType::Rook), promo(PieceType::Bishop), promo(PieceType::Knight)]
    } else {
        seq![ChessMove::spec_new(s as i8, t as i8, pt, v[t])]
    }
}

/// The pawn moves to the targets `ts`, each coming from `back` squares away.
pub open spec fn pawn_seq(ts: Seq<int>, back: int, pt: ColoredPieceType, v: Seq<ColoredPieceType>) -> Seq<ChessMove> {
    flat(ts, |t: int| pawn_moves_to(t + back, t, pt, v))
}

/// The moves to the targets `ts`, each coming from `back` squares away, with no promotion.
pub open spec fn plain_seq(ts: Seq<int>, back: int, pt: ColoredPieceType, v: Seq<ColoredPieceType>) -> Seq<ChessMove> {
    flat(ts, |t: int| seq![ChessMove::spec_new((t + back) as i8, t as i8, pt, v[t])])
}

/// The moves of piece `pt` from `from` to the targets `ts`.
pub open spec fn piece_seq(from: int, ts: Seq<int>, pt: ColoredPieceType, v: Seq<ColoredPieceType>) -> Seq<ChessMove> {
    flat(ts, |t: int| seq![ChessMove::spec_new(from as i8, t as i8, pt, v[t])])
}

/// Appends the pawn moves of `pt` to the targets of `targets`, each from `back` squares away.
pub(crate) fn emit_pawn_moves(moves: &mut MoveVector, targets: u64, back: i8, pt: ColoredPieceType, piece_board: &PieceBoard)
    requires
        -17 <= back <= 17,
        pt != ColoredPieceType::Empty,
        move_items(*old(moves)).len() + pawn_seq(set_squares(targets), back as int, pt, piece_board@).len() <= 200,
    ensures
        move_items(*final(moves)) == move_items(*old(moves)) + pawn_seq(set_squares(targets), back as int, pt, piece_board@),
{
    let ghost v = piece_board@;
    let ghost ts = set_squares(targets);
    let ghost f = |t: int| pawn_moves_to(t + back, t, pt, v);
    let ghost start = move_items(*moves);
    let squares = targets.iterate_squares();
    let mut i: usize = 0;
    proof {
        lemma_set_squares_are_set(targets);
        assert(ts.take(0) =~= Seq::<int>::empty());
        assert(start + flat(ts.take(0), f) =~= start);
        piece_board.lemma_len();
    }
    while i < squares.len()
        invariant
            -17 <= back <= 17,
            pt != ColoredPieceType::Empty,
            v == piece_board@,
            v.len() == 64,
            ts == set_squares(targets),
            f == (|t: int| pawn_moves_to(t + back, t, pt, v)),
            squares@.len() == ts.len(),
            forall|j: int| 0 <= j < squares@.len() ==> squares@[j] == ts[j],
            forall|j: int| 0 <= j < ts.len() ==> 0 <= #[trigger] ts[j] < 64,
            i <= squares@.len(),
            start.len() + flat(ts, f).len() <= 200,
            move_items(*moves) == start + flat(ts.take(i as int), f),
        decreases squares@.len() - i,
    {
        let target = squares[i];
        assert(target == ts[i as int]);
        proof {
            lemma_flat_step(ts, i as int, f);
        }
        let start_square = target + back;
        let captured = piece_board.get(target);
        let ghost before = move_items(*moves);
        if target.rank() == 0 || target.rank() == 7 {
            let color = pt.color();
            push_move(moves, ChessMove::new_pawn(start_square, target, pt, captured, PieceType::Queen.colored(color)));
            push_move(moves, ChessMove::new_pawn(start_square, target, pt, captured, PieceType::Rook.colored(color)));
            push_move(moves, ChessMove::new_pawn(start_square, target, pt, captured, PieceType::Bishop.colored(color)));
            push_move(moves, ChessMove::new_pawn(start_square, target, pt, captured, PieceType::Knight.colored(color)));
        } else {
            push_move(moves, ChessMove::new(start_square, target, pt, captured));
        }
        proof {
            assert(move_items(*moves) =~= before + f(ts[i as int]));
        }
        i = i + 1;
    }
    proof {
        assert(ts.take(ts.len() as int) =~= ts);
    }
}

/// Appends the moves of `pt` to the targets of `targets`, each from `back` squares away.
pub(crate) fn emit_plain_moves(moves: &mut MoveVector, targets: u64, back: i8, pt: ColoredPieceType, piece_board: &PieceBoard)
    requires
        -17 <= back <= 17,
        pt != ColoredPieceType::Empty,
        move_items(*old(moves)).len() + plain_seq(set_squares(targets), back as int, pt, piece_board@).len() <= 200,
    ensures
        move_items(*final(moves)) == move_items(*old(moves)) + plain_seq(set_squares(targets), back as int, pt, piece_board@),
{
    let ghost v = piece_board@;
    let ghost ts = set_squares(targets);
    let ghost f = |t: int| seq![ChessMove::spec_new((t + back) as i8, t as i8, pt, v[t])];
    let ghost start = move_items(*moves);
    let squares = targets.iterate_squares();
    let mut i: usize = 0;
    proof {
        lemma_set_squares_are_set(targets);
        assert(ts.take(0) =~= Seq::<int>::empty());
        assert(start + flat(ts.take(0), f) =~= start);
        piece_board.lemma_len();
    }
    while i < squares.len()
        invariant
            -17 <= back <= 17,
            pt != ColoredPieceType::Empty,
            v == piece_board@,
            v.len() == 64,
            ts == set_squares(targets),
            f == (|t: int| seq![ChessMove::spec_new((t + back) as i8, t as i8, pt, v[t])]),
            squares@.len() == ts.len(),
            forall|j: int| 0 <= j < squares@.len() ==> squares@[j] == ts[j],
            forall|j: int| 0 <= j < ts.len() ==> 0 <= #[trigger] ts[j] < 64,
            i <= squares@.len(),
            start.len() + flat(ts, f).len() <= 200,
            move_items(*moves) == start + flat(ts.take(i as int), f),
        decreases squares@.len() - i,
    {
        let target = squares[i];
        assert(target == ts[i as int]);
        proof {
            lemma_flat_step(ts, i as int, f);
        }
        let ghost before = move_items(*moves);
        push_move(moves, ChessMove::new(target + back, target, pt, piece_board.get(target)));
        proof {
            assert(move_items(*moves) =~= before + f(ts[i as int]));
        }
        i = i + 1;
    }
    proof {
        assert(ts.take(ts.len() as int) =~= ts);
    }
}

/// Appends the moves of `pt` from `from` to the targets of `targets`.
pub(crate) fn emit_piece_moves(moves: &mut MoveVector, from: i8, targets: u64, pt: ColoredPieceType, piece_board: &PieceBoard)
    requires
        pt != ColoredPieceType::Empty,
        move_items(*old(moves)).len() + piece_seq(from as int, set_squares(targets), pt, piece_board@).len() <= 200,
    ensures
        move_items(*final(moves)) == move_items(*old(moves)) + piece_seq(from as int, set_squares(targets), pt, piece_board@),
{
    let ghost v = piece_board@;
    let ghost ts = set_squares(targets);
    let ghost f = |t: int| seq![ChessMove::spec_new(from as i8, t as i8, pt, v[t])];
    let ghost start = move_items(*moves);
    let squares = targets.iterate_squares();
    let mut i: usize = 0;
    proof {
        lemma_set_squares_are_set(targets);
        assert(ts.take(0) =~= Seq::<int>::empty());
        assert(start + flat(ts.take(0), f) =~= start);
        piece_board.lemma_len();
    }
    while i < squares.len()
        invariant
            pt != ColoredPieceType::Empty,
            v == piece_board@,
            v.len() == 64,
            ts == set_squares(targets),
            f == (|t: int| seq![ChessMove::spec_new(from as i8, t as i8, pt, v[t])]),
            squares@.len() == ts.len(),
            forall|j: int| 0 <= j < squares@.len() ==> squares@[j] == ts[j],
            forall|j: int| 0 <= j < ts.len() ==> 0 <= #[trigger] ts[j] < 64,
            i <= squares@.len(),
            start.len() + flat(ts, f).len() <= 200,
            move_items(*moves) == start + flat(ts.take(i as int), f),
        decreases squares@.len() - i,
    {
        let target = squares[i];
        assert(target == ts[i as int]);
        proof {
            lemma_flat_step(ts, i as int, f);
        }
        let ghost before = move_items(*moves);
        push_move(moves, ChessMove::new(from, target, pt, piece_board.get(target)));
        proof {
            assert(move_items(*moves) =~= before + f(ts[i as int]));
        }
        i = i + 1;
    }
    proof {
        assert(ts.take(ts.len() as int) =~= ts);
    }
}

/// The kinds of pieces whose moves are read square by square.
#[derive(Clone, Copy, PartialEq, Eq, Structural)]
pub enum SourceKind {
    Knight,
    DiagonalPinned,
    DiagonalFree,
    OrthogonalPinned,
    OrthogonalFree,
}

/// The targets of a piece of kind `kind` on `s`: a knight's steps, a slider's fill moves,
/// kept on the pin line for a pinned slider, all within the check mask and off allied squares.
pub open spec fn source_targets(kind: SourceKind, s: int, allied: u64, opponent: u64, m: LegalMasks) -> u64 {
    match kind {
        SourceKind::Knight => mask_of(|t: int| knight_step(s, t)) & !allied & m.check,
        SourceKind::DiagonalPinned => bishop_kogge(1u64 << (s as u64), allied, opponent) & m.diag & m.check,
        SourceKind::DiagonalFree => bishop_kogge(1u64 << (s as u64), allied, opponent) & m.check,
        SourceKind::OrthogonalPinned => rook_kogge(1u64 << (s as u64), allied, opponent) & m.ortho & m.check,
        SourceKind::OrthogonalFree => rook_kogge(1u64 << (s as u64), allied, opponent) & m.check,
    }
}

/// The moving piece of a move of kind `kind` from `s`.
pub open spec fn source_piece(kind: SourceKind, s: int, c: PlayerColor, v: Seq<ColoredPieceType>) -> ColoredPieceType {
    if kind == SourceKind::Knight {
        colored_piece(PieceType::Knight, c)
    } else {
        v[s]
    }
}

/// The moves of the pieces of kind `kind` on the squares `srcs`, square by square.
pub open spec fn source_seq(srcs: Seq<int>, kind: SourceKind, c: PlayerColor, allied: u64, opponent: u64, m: LegalMasks,
    v: Seq<ColoredPieceType>) -> Seq<ChessMove> {
    flat(srcs, |s: int| piece_seq(s, set_squares(source_targets(kind, s, allied, opponent, m)), source_piece(kind, s, c, v), v))
}

/// The single square `s` as a bitboard is `1 << s`.
pub(crate) proof fn lemma_single_bit(s: int, r: u64)
    requires
        0 <= s < 64,
        forall|t: int| #[trigger] bit(r, t) == (t == s),
    ensures
        r == 1u64 << (s as u64),
{
    assert forall|t: int| 0 <= t < 64 implies bit(r, t) == bit(1u64 << (s as u64), t) by {
        lemma_bit_single(s, t);
    }
    lemma_bits_ext(r, 1u64 << (s as u64));
}

/// Appends the moves of the pieces of kind `kind` on the squares of `sources`.
pub(crate) fn emit_source_moves(moves: &mut MoveVector, sources: u64, kind: SourceKind, color: PlayerColor, allied: u64,
    opponent: u64, m: &LegalMasks, piece_board: &PieceBoard)
    requires
        forall|s: int| 0 <= s < 64 && #[trigger] bit(sources, s) ==> piece_board@[s] != ColoredPieceType::Empty,
        move_items(*old(moves)).len() + source_seq(set_squares(sources), kind, color, allied, opponent, *m, piece_board@).len() <= 200,
    ensures
        move_items(*final(moves)) == move_items(*old(moves)) + source_seq(set_squares(sources), kind, color, allied, opponent, *m, piece_board@),
{
    let ghost v = piece_board@;
    let ghost ss = set_squares(sources);
    let ghost f = |s: int| piece_seq(s, set_squares(source_targets(kind, s, allied, opponent, *m)), source_piece(kind, s, color, v), v);
    let ghost start = move_items(*moves);
    let squares = sources.iterate_squares();
    let knight_pt = PieceType::Knight.colored(color);
    let mut i: usize = 0;
    proof {
        lemma_set_squares_are_set(sources);
        assert(ss.take(0) =~= Seq::<int>::empty());
        assert(start + flat(ss.take(0), f) =~= start);
    }
    while i < squares.len()
        invariant
            v == piece_board@,
            ss == set_squares(sources),
            knight_pt == colored_piece(PieceType::Knight, color),
            f == (|s: int| piece_seq(s, set_squares(source_targets(kind, s, allied, opponent, *m)), source_piece(kind, s, color, v), v)),
            squares@.len() == ss.len(),
            forall|j: int| 0 <= j < squares@.len() ==> squares@[j] == ss[j],
            forall|j: int| 0 <= j < ss.len() ==> 0 <= #[trigger] ss[j] < 64 && bit(sources, ss[j]),
            forall|s: int| 0 <= s < 64 && #[trigger] bit(sources, s) ==> v[s] != ColoredPieceType::Empty,
            i <= squares@.len(),
            start.len() + flat(ss, f).len() <= 200,
            move_items(*moves) == start + flat(ss.take(i as int), f),
        decreases squares@.len() - i,
    {
        let square = squares[i];
        assert(square == ss[i as int]);
        proof {
            lemma_flat_step(ss, i as int, f);
        }
        let targets = match kind {
            SourceKind::Knight => {
                let steps = knight_moves(square);
                proof {
                    lemma_mask_of(|t: int| knight_step(square as int, t), steps);
                }
                steps & !allied & m.check
            },
            SourceKind::DiagonalPinned => {
                let single = square.bit_array();
                proof {
                    lemma_single_bit(square as int, single);
                }
                gen_bishop_moves_kogge(single, allied, opponent) & m.diag & m.check
            },
            SourceKind::DiagonalFree => {
                let single = square.bit_array();
                proof {
                    lemma_single_bit(square as int, single);
                }
                gen_bishop_moves_kogge(single, allied, opponent) & m.check
            },
            SourceKind::OrthogonalPinned => {
                let single = square.bit_array();
                proof {
                    lemma_single_bit(square as int, single);
                }
                gen_rook_moves_kogge(single, allied, opponent) & m.ortho & m.check
            },
            SourceKind::OrthogonalFree => {
                let single = square.bit_array();
                proof {
                    lemma_single_bit(square as int, single);
                }
                gen_rook_moves_kogge(single, allied, opponent) & m.check
            },
        };
        let pt = match kind {
            SourceKind::Knight => knight_pt,
            _ => piece_board.get(square),
        };
        assert(targets == source_targets(kind, square as int, allied, opponent, *m));
        assert(pt == source_piece(kind, square as int, color, v));
        proof {
            crate::board::piece_type::law_colored_piece_roundtrip(PieceType::Knight, color, knight_pt);
        }
        emit_piece_moves(moves, square, targets, pt, piece_board);
        i = i + 1;
    }
    proof {
        assert(ss.take(ss.len() as int) =~= ss);
    }
}

/// The castling moves of the king on `k`: long first, then short.
pub open spec fn castle_seq(m: LegalMasks, k: int, king_pt: ColoredPieceType) -> Seq<ChessMove> {
    (if m.queen_castle {
        seq![ChessMove::spec_new(k as i8, (k - 2) as i8, king_pt, ColoredPieceType::Empty)]
    } else {
        Seq::empty()
    }) + (if m.king_castle {
        seq![ChessMove::spec_new(k as i8, (k + 2) as i8, king_pt, ColoredPieceType::Empty)]
    } else {
        Seq::empty()
    })
}

/// The legal moves of the side to move, in the order in which they are generated: pawn
/// captures (pinned pawns first, towards the a-file then the h-file), pawn pushes, double
/// pushes, knight moves, diagonal and orthogonal slider moves (pinned sliders first), king
/// moves, and castlings.
pub open spec fn legal_moves_spec(b: BitBoard, v: Seq<ColoredPieceType>, f: GameFlags) -> Seq<ChessMove> {
    let c = f.active_color;
    let m = legal_masks_spec(b, f);
    let dy = pawn_dy(c);
    let allied = b.side(c);
    let opponent = b.side(other(c));
    let pawn_pt = colored_piece(PieceType::Pawn, c);
    let king_pt = colored_piece(PieceType::King, c);
    pawn_seq(set_squares(m.left_pinned), 1 - 8 * dy, pawn_pt, v)
        + pawn_seq(set_squares(m.right_pinned), -1 - 8 * dy, pawn_pt, v)
        + pawn_seq(set_squares(m.left_free), 1 - 8 * dy, pawn_pt, v)
        + pawn_seq(set_squares(m.right_free), -1 - 8 * dy, pawn_pt, v)
        + pawn_seq(set_squares(m.push_pinned), -8 * dy, pawn_pt, v)
        + pawn_seq(set_squares(m.push_free), -8 * dy, pawn_pt, v)
        + plain_seq(set_squares(m.double_pinned), -16 * dy, pawn_pt, v)
        + plain_seq(set_squares(m.double_free), -16 * dy, pawn_pt, v)
        + source_seq(set_squares(m.knights), SourceKind::Knight, c, allied, opponent, m, v)
        + source_seq(set_squares(m.diag_pinned), SourceKind::DiagonalPinned, c, allied, opponent, m, v)
        + source_seq(set_squares(m.diag_free), SourceKind::DiagonalFree, c, allied, opponent, m, v)
        + source_seq(set_squares(m.ortho_pinned), SourceKind::OrthogonalPinned, c, allied, opponent, m, v)
        + source_seq(set_squares(m.ortho_free), SourceKind::OrthogonalFree, c, allied, opponent, m, v)
        + piece_seq(m.king as int, set_squares(m.king_targets), king_pt, v)
        + castle_seq(m, m.king as int, king_pt)
}

/// The legal moves of the side to move, generated from bitboards: pins and checks narrow the
/// targets, and the king avoids the squares that the other side attacks.
#[verifier::rlimit(60)]
pub fn gen_legal_moves(board_state: &BoardState, flags: &GameFlags) -> (r: MoveVector)
    requires
        board_state.wf(),
        has_king(board_state.bit_board, flags.active_color),
        legal_moves_spec(board_state.bit_board, board_state@, *flags).len() <= 200,
    ensures
        move_items(r) == legal_moves_spec(board_state.bit_board, board_state@, *flags),
{
    let board = &board_state.bit_board;
    let piece_board = &board_state.piece_board;
    let ghost b = *board;
    let ghost v = piece_board@;
    let ghost full = legal_moves_spec(b, v, *flags);
    let m = legal_masks(board, flags);
    let moving_color = flags.active_color;
    let allied = match moving_color {
        PlayerColor::White => board.white_piece,
        PlayerColor::Black => board.black_piece,
    };
    let opponent = match moving_color {
        PlayerColor::White => board.black_piece,
        PlayerColor::Black => board.white_piece,
    };
    let dy: i8 = match moving_color {
        PlayerColor::White => 1,
        PlayerColor::Black => -1,
    };
    let pawn_pt = PieceType::Pawn.colored(moving_color);
    let king_pt = PieceType::King.colored(moving_color);
    proof {
        crate::board::piece_type::law_colored_piece_roundtrip(PieceType::Pawn, moving_color, pawn_pt);
        crate::board::piece_type::law_colored_piece_roundtrip(PieceType::King, moving_color, king_pt);
        assert forall|s: int| 0 <= s < 64 && #[trigger] bit(board.diagonal_slider & allied, s) implies v[s] != ColoredPieceType::Empty by {
            board.lemma_bits_of(s);
            lemma_bit_and(board.diagonal_slider, allied, s);
        }
        assert forall|s: int| 0 <= s < 64 && #[trigger] bit(board.orthogonal_slider & allied, s) implies v[s] != ColoredPieceType::Empty by {
            board.lemma_bits_of(s);
            lemma_bit_and(board.orthogonal_slider, allied, s);
        }
    }
    proof {
        board.lemma_king_of_bit(moving_color);
        assert forall|s: int| 0 <= s < 64 && #[trigger] bit(m.knights, s) implies v[s] != ColoredPieceType::Empty by {
            lemma_bit_and(board.knight & allied & !m.diag, !m.ortho, s);
            lemma_bit_and(board.knight & allied, !m.diag, s);
            lemma_bit_and(board.knight, allied, s);
            board.lemma_bits_of(s);
        }
    }
    let mut moves = new_move_vector();

    //Pawn captures
    emit_pawn_moves(&mut moves, m.left_pinned, 1 - 8 * dy, pawn_pt, piece_board);
    emit_pawn_moves(&mut moves, m.right_pinned, -1 - 8 * dy, pawn_pt, piece_board);
    emit_pawn_moves(&mut moves, m.left_free, 1 - 8 * dy, pawn_pt, piece_board);
    emit_pawn_moves(&mut moves, m.right_free, -1 - 8 * dy, pawn_pt, piece_board);

    //Pushes
    emit_pawn_moves(&mut moves, m.push_pinned, -8 * dy, pawn_pt, piece_board);
    emit_pawn_moves(&mut moves, m.push_free, -8 * dy, pawn_pt, piece_board);
    emit_plain_moves(&mut moves, m.double_pinned, -16 * dy, pawn_pt, piece_board);
    emit_plain_moves(&mut moves, m.double_free, -16 * dy, pawn_pt, piece_board);

    //Knights and sliders
    emit_source_moves(&mut moves, m.knights, SourceKind::Knight, moving_color, allied, opponent, &m, piece_board);
    proof {
        assert forall|s: int| 0 <= s < 64 && #[trigger] bit(m.diag_pinned, s) implies v[s] != ColoredPieceType::Empty by {
            lemma_bit_and(board.diagonal_slider & allied & !m.ortho, m.diag, s);
            lemma_bit_and(board.diagonal_slider & allied, !m.ortho, s);
            assert(bit(board.diagonal_slider & allied, s));
        }
        assert forall|s: int| 0 <= s < 64 && #[trigger] bit(m.diag_free, s) implies v[s] != ColoredPieceType::Empty by {
            lemma_bit_and(board.diagonal_slider & allied & !m.ortho, !m.diag, s);
            lemma_bit_and(board.diagonal_slider & allied, !m.ortho, s);
            assert(bit(board.diagonal_slider & allied, s));
        }
        assert forall|s: int| 0 <= s < 64 && #[trigger] bit(m.ortho_pinned, s) implies v[s] != ColoredPieceType::Empty by {
            lemma_bit_and(board.orthogonal_slider & allied & !m.diag, m.ortho, s);
            lemma_bit_and(board.orthogonal_slider & allied, !m.diag, s);
            assert(bit(board.orthogonal_slider & allied, s));
        }
        assert forall|s: int| 0 <= s < 64 && #[trigger] bit(m.ortho_free, s) implies v[s] != ColoredPieceType::Empty by {
            lemma_bit_and(board.orthogonal_slider & allied & !m.diag, !m.ortho, s);
            lemma_bit_and(board.orthogonal_slider & allied, !m.diag, s);
            assert(bit(board.orthogonal_slider & allied, s));
        }
    }
    emit_source_moves(&mut moves, m.diag_pinned, SourceKind::DiagonalPinned, moving_color, allied, opponent, &m, piece_board);
    emit_source_moves(&mut moves, m.diag_free, SourceKind::DiagonalFree, moving_color, allied, opponent, &m, piece_board);
    emit_source_moves(&mut moves, m.ortho_pinned, SourceKind::OrthogonalPinned, moving_color, allied, opponent, &m, piece_board);
    emit_source_moves(&mut moves, m.ortho_free, SourceKind::OrthogonalFree, moving_color, allied, opponent, &m, piece_board);

    //King
    emit_piece_moves(&mut moves, m.king, m.king_targets, king_pt, piece_board);
    let ghost before_castle = move_items(moves);
    if m.queen_castle {
        push_move(&mut moves, ChessMove::new(m.king, m.king - 2, king_pt, ColoredPieceType::Empty));
    }
    if m.king_castle {
        push_move(&mut moves, ChessMove::new(m.king, m.king + 2, king_pt, ColoredPieceType::Empty));
    }
    assert(move_items(moves) =~= before_castle + castle_seq(m, m.king as int, king_pt));
    moves
}

/// The first and last ranks, where a pawn that arrives promotes.
pub const LAST_RANKS: u64 = 0xFF00_0000_0000_00FF;

proof fn lemma_last_ranks(t: int)
    requires
        0 <= t < 64,
    ensures
        bit(LAST_RANKS, t) == (rank_of(t) == 0 || rank_of(t) == 7),
{
    let u = t as u64;
    assert(u < 64 ==> ((0xFF00_0000_0000_00FFu64 >> u) & 1u64 == 1u64 <==> (u < 8 || u >= 56))) by (bit_vector);
}

/// One move per target: as many moves as targets.
proof fn lemma_flat_singles<A>(ts: Seq<int>, f: spec_fn(int) -> Seq<A>)
    requires
        forall|t: int| #[trigger] f(t).len() == 1,
    ensures
        flat(ts, f).len() == ts.len(),
    decreases ts.len(),
{
    if ts.len() > 0 {
        lemma_flat_singles(ts.drop_last(), f);
        assert(f(ts.last()).len() == 1);
    }
}

/// The moves of a piece number its targets.
pub proof fn lemma_piece_seq_len(from: int, x: u64, pt: ColoredPieceType, v: Seq<ColoredPieceType>)
    ensures
        piece_seq(from, set_squares(x), pt, v).len() == pop(x),
{
    let f = |t: int| seq![ChessMove::spec_new(from as i8, t as i8, pt, v[t])];
    assert forall|t: int| #[trigger] f(t).len() == 1 by {}
    lemma_flat_singles(set_squares(x), f);
    lemma_set_squares_len(x);
}

/// The double pushes number their targets.
pub proof fn lemma_plain_seq_len(x: u64, back: int, pt: ColoredPieceType, v: Seq<ColoredPieceType>)
    ensures
        plain_seq(set_squares(x), back, pt, v).len() == pop(x),
{
    let f = |t: int| seq![ChessMove::spec_new((t + back) as i8, t as i8, pt, v[t])];
    assert forall|t: int| #[trigger] f(t).len() == 1 by {}
    lemma_flat_singles(set_squares(x), f);
    lemma_set_squares_len(x);
}

proof fn lemma_pawn_seq_len_from(x: u64, i: int, back: int, pt: ColoredPieceType, v: Seq<ColoredPieceType>)
    requires
        0 <= i <= 64,
    ensures
        pawn_seq(squares_from(x, i), back, pt, v).len() == squares_from(x & !LAST_RANKS, i).len()
            + 4 * squares_from(x & LAST_RANKS, i).len(),
    decreases 64 - i,
{
    let f = |t: int| pawn_moves_to(t + back, t, pt, v);
    if i < 64 {
        lemma_pawn_seq_len_from(x, i + 1, back, pt, v);
        lemma_bit_and(x, !LAST_RANKS, i);
        lemma_bit_not(LAST_RANKS, i);
        lemma_bit_and(x, LAST_RANKS, i);
        lemma_last_ranks(i);
        if bit(x, i) {
            lemma_flat_concat(seq![i], squares_from(x, i + 1), f);
            assert(seq![i].drop_last() =~= Seq::<int>::empty());
            assert(flat(seq![i], f) == flat(Seq::<int>::empty(), f) + f(i));
        }
    }
}

/// The pawn moves to the targets of `x`: four for each target on the first or last rank.
pub proof fn lemma_pawn_seq_len(x: u64, back: int, pt: ColoredPieceType, v: Seq<ColoredPieceType>)
    ensures
        pawn_seq(set_squares(x), back, pt, v).len() == pop(x & !LAST_RANKS) + 4 * pop(x & LAST_RANKS),
{
    lemma_pawn_seq_len_from(x, 0, back, pt, v);
    lemma_set_squares_len(x & !LAST_RANKS);
    lemma_set_squares_len(x & LAST_RANKS);
}

/// The number of pawn moves to the targets of `targets`, promotions counted four times.
fn count_pawn_moves(targets: u64) -> (r: u32)
    ensures
        r == pop(targets & !LAST_RANKS) + 4 * pop(targets & LAST_RANKS),
{
    count_bits(targets & !LAST_RANKS) + count_bits(targets & LAST_RANKS) * 4
}

/// A pawn pinned along a line through its king cannot push onto the first or last rank: the
/// square it pushes to lies strictly inside a pin line, and a line along a rank cannot hold
/// both the pawn and its target.
#[verifier::rlimit(50)]
#[verifier::spinoff_prover]
proof fn lemma_pinned_push_not_last(b: BitBoard, c: PlayerColor, og: u64, t: int)
    requires
        b.wf(),
        has_king(b, c),
        forall|u: int| 0 <= u < 64 ==> #[trigger] bit(og, u) == orthogonal_pin_square(b, c, king_of(b, c), u),
        0 <= t < 64,
        bit(og, t),
        !bit(b.white_piece | b.black_piece, t),
        0 <= t - 8 * pawn_dy(c) < 64,
        bit(og, t - 8 * pawn_dy(c)),
        bit(b.pawn & b.side(c), t - 8 * pawn_dy(c)),
    ensures
        rank_of(t) != 0 && rank_of(t) != 7,
{
    let k = king_of(b, c);
    let p = t - 8 * pawn_dy(c);
    let occ = b.white_piece | b.black_piece;
    b.lemma_king_of_bit(c);
    lemma_bit_and(b.side(c), b.king, k);
    lemma_bit_or(b.white_piece, b.black_piece, k);
    lemma_bit_or(b.white_piece, b.black_piece, t);
    lemma_bit_and(b.pawn, b.side(c), p);
    b.lemma_bits_of(p);
    assert(orthogonal_pin_square(b, c, k, t));
    let a1 = choose|a: int| 0 <= a < 64 && #[trigger] crate::moves::check_pin_mask::orthogonal_attacker(b, c, k, a)
        && crate::moves::check_pin_mask::one_between(b.occupied(), a, k) && crate::moves::check_pin_mask::toward(a, k, t);
    lemma_bit_and(b.orthogonal_slider, b.side(other(c)), a1);
    lemma_bit_or(b.white_piece, b.black_piece, a1);
    assert(t != a1);
    assert(between(a1, k, t));
    assert(orthogonal_pin_square(b, c, k, p));
    let a2 = choose|a: int| 0 <= a < 64 && #[trigger] crate::moves::check_pin_mask::orthogonal_attacker(b, c, k, a)
        && crate::moves::check_pin_mask::one_between(b.occupied(), a, k) && crate::moves::check_pin_mask::toward(a, k, p);
    lemma_bit_and(b.orthogonal_slider, b.side(other(c)), a2);
    b.lemma_bits_of(a2);
    assert(p != a2);
    assert(between(a2, k, p));
    assert(crate::board::square::file_of(p) == crate::board::square::file_of(t));
    assert(rank_of(p) == rank_of(t) - pawn_dy(c));
}

/// The sides of a valid position share no square, and together they are the occupied squares.
proof fn lemma_sides(b: BitBoard, c: PlayerColor)
    requires
        b.wf(),
    ensures
        b.side(c) & b.side(other(c)) == 0,
        b.white_piece | b.black_piece == b.side(c) | b.side(other(c)),
{
    assert forall|t: int| 0 <= t < 64 implies bit(b.side(c) & b.side(other(c)), t) == bit(0u64, t) by {
        lemma_bit_and(b.side(c), b.side(other(c)), t);
        lemma_bit_zero(t);
        assert(b.square_wf(t));
    }
    lemma_bits_ext(b.side(c) & b.side(other(c)), 0u64);
    assert forall|t: int| 0 <= t < 64 implies bit(b.white_piece | b.black_piece, t) == bit(b.side(c) | b.side(other(c)), t) by {
        lemma_bit_or(b.white_piece, b.black_piece, t);
        lemma_bit_or(b.side(c), b.side(other(c)), t);
    }
    lemma_bits_ext(b.white_piece | b.black_piece, b.side(c) | b.side(other(c)));
}

/// For a slider on an allied square, the table lookup less the allied squares is the
/// fill-based move set.
proof fn lemma_pext_matches_kogge(tables: &SliderTables, b: BitBoard, c: PlayerColor, s: int, rook: bool, pext: u64)
    requires
        tables.wf(),
        b.wf(),
        0 <= s < 64,
        bit(b.side(c), s),
        rook ==> forall|t: int| 0 <= t < 64 ==> #[trigger] bit(pext, t)
            == rook_target(s, t, 0, (b.white_piece | b.black_piece) & blocker_mask(true, s)),
        !rook ==> forall|t: int| 0 <= t < 64 ==> #[trigger] bit(pext, t)
            == bishop_target(s, t, 0, (b.white_piece | b.black_piece) & blocker_mask(false, s)),
    ensures
        rook ==> pext & !b.side(c) == rook_kogge(1u64 << (s as u64), b.side(c), b.side(other(c))),
        !rook ==> pext & !b.side(c) == bishop_kogge(1u64 << (s as u64), b.side(c), b.side(other(c))),
{
    let allied = b.side(c);
    let opponent = b.side(other(c));
    lemma_sides(b, c);
    if rook {
        law_rook_pext_matches_walk(tables, s, allied, opponent);
        law_rook_kogge_matches_walk(s, allied, opponent);
        assert forall|t: int| 0 <= t < 64 implies bit(pext & !allied, t) == bit(rook_kogge(1u64 << (s as u64), allied, opponent), t) by {
            lemma_bit_and(pext, !allied, t);
            lemma_bit_not(allied, t);
            assert(bit(pext, t) == rook_target(s, t, 0, (allied | opponent) & blocker_mask(true, s)));
            assert(bit(rook_kogge(1u64 << (s as u64), allied, opponent), t) == rook_target(s, t, allied, opponent));
        }
        lemma_bits_ext(pext & !allied, rook_kogge(1u64 << (s as u64), allied, opponent));
    } else {
        law_bishop_pext_matches_walk(tables, s, allied, opponent);
        law_bishop_kogge_matches_walk(s, allied, opponent);
        assert forall|t: int| 0 <= t < 64 implies bit(pext & !allied, t) == bit(bishop_kogge(1u64 << (s as u64), allied, opponent), t) by {
            lemma_bit_and(pext, !allied, t);
            lemma_bit_not(allied, t);
            assert(bit(pext, t) == bishop_target(s, t, 0, (allied | opponent) & blocker_mask(false, s)));
            assert(bit(bishop_kogge(1u64 << (s as u64), allied, opponent), t) == bishop_target(s, t, allied, opponent));
        }
        lemma_bits_ext(pext & !allied, bishop_kogge(1u64 << (s as u64), allied, opponent));
    }
}

/// The targets of the piece of kind `kind` on `square`, slider moves read from the move tables.
fn source_targets_at(tables: &SliderTables, square: i8, kind: SourceKind, board: &BitBoard, color: PlayerColor,
    m: &LegalMasks) -> (r: u64)
    requires
        tables.wf(),
        board.wf(),
        0 <= square < 64,
        kind != SourceKind::Knight ==> bit(board.side(color), square as int),
    ensures
        r == source_targets(kind, square as int, board.side(color), board.side(other(color)), *m),
{
    let ghost b = *board;
    let allied = match color {
        PlayerColor::White => board.white_piece,
        PlayerColor::Black => board.black_piece,
    };
    let occupied = board.white_piece | board.black_piece;
    match kind {
        SourceKind::Knight => {
            let steps = knight_moves(square);
            proof {
                lemma_mask_of(|t: int| knight_step(square as int, t), steps);
            }
            steps & !allied & m.check
        },
        SourceKind::DiagonalPinned => {
            let moves = gen_bishop_moves_pext(tables, square, occupied);
            proof {
                lemma_pext_matches_kogge(tables, b, color, square as int, false, moves);
            }
            moves & !allied & m.diag & m.check
        },
        SourceKind::DiagonalFree => {
            let moves = gen_bishop_moves_pext(tables, square, occupied);
            proof {
                lemma_pext_matches_kogge(tables, b, color, square as int, false, moves);
            }
            moves & !allied & m.check
        },
        SourceKind::OrthogonalPinned => {
            let moves = gen_rook_moves_pext(tables, square, occupied);
            proof {
                lemma_pext_matches_kogge(tables, b, color, square as int, true, moves);
            }
            moves & !allied & m.ortho & m.check
        },
        SourceKind::OrthogonalFree => {
            let moves = gen_rook_moves_pext(tables, square, occupied);
            proof {
                lemma_pext_matches_kogge(tables, b, color, square as int, true, moves);
            }
            moves & !allied & m.check
        },
    }
}

/// The number of moves of the pieces of kind `kind` on the squares of `sources`, read from
/// the move tables for sliders.
fn count_source_moves(tables: &SliderTables, sources: u64, kind: SourceKind, board: &BitBoard, color: PlayerColor,
    m: &LegalMasks, Ghost(v): Ghost<Seq<ColoredPieceType>>) -> (r: u32)
    requires
        tables.wf(),
        board.wf(),
        kind != SourceKind::Knight ==> forall|s: int| 0 <= s < 64 && #[trigger] bit(sources, s) ==> bit(board.side(color), s),
    ensures
        r == source_seq(set_squares(sources), kind, color, board.side(color), board.side(other(color)), *m, v).len(),
        r <= 4096,
{
    let ghost b = *board;
    let allied = match color {
        PlayerColor::White => board.white_piece,
        PlayerColor::Black => board.black_piece,
    };
    let opponent = match color {
        PlayerColor::White => board.black_piece,
        PlayerColor::Black => board.white_piece,
    };
    let occupied = board.white_piece | board.black_piece;
    let ghost ss = set_squares(sources);
    let ghost f = |s: int| piece_seq(s, set_squares(source_targets(kind, s, allied, opponent, *m)), source_piece(kind, s, color, v), v);
    let squares = sources.iterate_squares();
    let mut count: u32 = 0;
    let mut i: usize = 0;
    proof {
        lemma_set_squares_are_set(sources);
        assert(ss.take(0) =~= Seq::<int>::empty());
        crate::board::bit_array::lemma_set_squares_len(sources);
        crate::board::bit_array::lemma_pop_below_bound(sources, 64);
    }
    while i < squares.len()
        invariant
            tables.wf(),
            b == *board,
            b.wf(),
            allied == b.side(color),
            opponent == b.side(other(color)),
            occupied == b.white_piece | b.black_piece,
            ss == set_squares(sources),
            ss.len() <= 64,
            f == (|s: int| piece_seq(s, set_squares(source_targets(kind, s, allied, opponent, *m)), source_piece(kind, s, color, v), v)),
            squares@.len() == ss.len(),
            forall|j: int| 0 <= j < squares@.len() ==> squares@[j] == ss[j],
            forall|j: int| 0 <= j < ss.len() ==> 0 <= #[trigger] ss[j] < 64 && bit(sources, ss[j]),
            kind != SourceKind::Knight ==> forall|s: int| 0 <= s < 64 && #[trigger] bit(sources, s) ==> bit(allied, s),
            i <= squares@.len(),
            count <= 64 * i,
            count == flat(ss.take(i as int), f).len(),
        decreases squares@.len() - i,
    {
        let square = squares[i];
        assert(square == ss[i as int]);
        proof {
            lemma_flat_step(ss, i as int, f);
        }
        let targets = source_targets_at(tables, square, kind, board, color, m);
        assert(targets == source_targets(kind, square as int, allied, opponent, *m));
        let n = count_bits(targets);
        proof {
            lemma_piece_seq_len(square as int, targets, source_piece(kind, square as int, color, v), v);
        }
        count = count + n;
        i = i + 1;
    }
    proof {
        assert(ss.take(ss.len() as int) =~= ss);
    }
    count
}

/// The squares `srcs` as piece squares of a move iterator.
pub open spec fn entry_starts(srcs: Seq<int>) -> Seq<i8> {
    srcs.map_values(|s: int| s as i8)
}

/// The targets of the pieces of kind `kind` on the squares `srcs`, square by square.
pub open spec fn entry_targets(srcs: Seq<int>, kind: SourceKind, allied: u64, opponent: u64, m: LegalMasks) -> Seq<u64> {
    srcs.map_values(|s: int| source_targets(kind, s, allied, opponent, m))
}

/// The piece squares of the move iterator of the side to move: knights, diagonal and
/// orthogonal sliders (pinned first), the king, and the king again for each castling.
pub open spec fn iterator_starts(b: BitBoard, f: GameFlags) -> Seq<i8> {
    let m = legal_masks_spec(b, f);
    entry_starts(set_squares(m.knights)) + entry_starts(set_squares(m.diag_pinned)) + entry_starts(set_squares(m.diag_free))
        + entry_starts(set_squares(m.ortho_pinned)) + entry_starts(set_squares(m.ortho_free)) + seq![m.king]
        + (if m.queen_castle { seq![m.king] } else { Seq::empty() })
        + (if m.king_castle { seq![m.king] } else { Seq::empty() })
}

/// The target bitboards that go with `iterator_starts`: a castling's target is the square two
/// files from the king, towards the a-file (long) or the h-file (short).
pub open spec fn iterator_targets(b: BitBoard, f: GameFlags) -> Seq<u64> {
    let c = f.active_color;
    let m = legal_masks_spec(b, f);
    let allied = b.side(c);
    let opponent = b.side(other(c));
    entry_targets(set_squares(m.knights), SourceKind::Knight, allied, opponent, m)
        + entry_targets(set_squares(m.diag_pinned), SourceKind::DiagonalPinned, allied, opponent, m)
        + entry_targets(set_squares(m.diag_free), SourceKind::DiagonalFree, allied, opponent, m)
        + entry_targets(set_squares(m.ortho_pinned), SourceKind::OrthogonalPinned, allied, opponent, m)
        + entry_targets(set_squares(m.ortho_free), SourceKind::OrthogonalFree, allied, opponent, m)
        + seq![m.king_targets]
        + (if m.queen_castle { seq![1u64 << ((m.king - 2) as u64)] } else { Seq::empty() })
        + (if m.king_castle { seq![1u64 << ((m.king + 2) as u64)] } else { Seq::empty() })
}

/// Adds to `it` the pieces of kind `kind` on the squares of `sources`, each with its targets.
fn add_source_entries(it: &mut MoveIterator, tables: &SliderTables, sources: u64, kind: SourceKind, board: &BitBoard,
    color: PlayerColor, m: &LegalMasks)
    requires
        old(it).wf(),
        old(it).starts().len() + set_squares(sources).len() <= 16,
        tables.wf(),
        board.wf(),
        kind != SourceKind::Knight ==> forall|s: int| 0 <= s < 64 && #[trigger] bit(sources, s) ==> bit(board.side(color), s),
    ensures
        final(it).wf(),
        final(it).starts() == old(it).starts() + entry_starts(set_squares(sources)),
        final(it).targets() == old(it).targets() + entry_targets(set_squares(sources), kind, board.side(color),
            board.side(other(color)), *m),
        final(it).left() == old(it).left() && final(it).right() == old(it).right(),
        final(it).pushes() == old(it).pushes() && final(it).doubles() == old(it).doubles(),
{
    let ghost ss = set_squares(sources);
    let ghost allied = board.side(color);
    let ghost opponent = board.side(other(color));
    let ghost fs = |s: int| s as i8;
    let ghost ft = |s: int| source_targets(kind, s, allied, opponent, *m);
    let ghost first = *it;
    let squares = sources.iterate_squares();
    let mut i: usize = 0;
    proof {
        lemma_set_squares_are_set(sources);
        assert(ss.take(0).map_values(fs) =~= Seq::<i8>::empty());
        assert(ss.take(0).map_values(ft) =~= Seq::<u64>::empty());
    }
    while i < squares.len()
        invariant
            tables.wf(),
            board.wf(),
            allied == board.side(color),
            opponent == board.side(other(color)),
            fs == (|s: int| s as i8),
            ft == (|s: int| source_targets(kind, s, allied, opponent, *m)),
            ss == set_squares(sources),
            squares@.len() == ss.len(),
            forall|j: int| 0 <= j < squares@.len() ==> squares@[j] == ss[j],
            forall|j: int| 0 <= j < ss.len() ==> 0 <= #[trigger] ss[j] < 64 && bit(sources, ss[j]),
            kind != SourceKind::Knight ==> forall|s: int| 0 <= s < 64 && #[trigger] bit(sources, s) ==> bit(allied, s),
            i <= squares@.len(),
            first.wf(),
            first.starts().len() + ss.len() <= 16,
            it.wf(),
            it.starts() == first.starts() + ss.take(i as int).map_values(fs),
            it.targets() == first.targets() + ss.take(i as int).map_values(ft),
            it.left() == first.left() && it.right() == first.right(),
            it.pushes() == first.pushes() && it.doubles() == first.doubles(),
        decreases squares@.len() - i,
    {
        let square = squares[i];
        assert(square == ss[i as int]);
        let targets = source_targets_at(tables, square, kind, board, color, m);
        it.add_move(square, targets);
        proof {
            assert(ss.take(i as int + 1).map_values(fs) =~= ss.take(i as int).map_values(fs).push(square));
            assert(ss.take(i as int + 1).map_values(ft) =~= ss.take(i as int).map_values(ft).push(targets));
        }
        i = i + 1;
    }
    proof {
        assert(ss.take(ss.len() as int) =~= ss);
    }
}

/// The legal moves of the side to move held as bitboards: the pawn moves by kind, and each
/// piece with its targets, slider moves read from the move tables.
#[verifier::rlimit(80)]
pub fn gen_legal_moves_iterator(tables: &SliderTables, board_state: &BoardState, flags: &GameFlags) -> (r: MoveIterator)
    requires
        tables.wf(),
        board_state.wf(),
        has_king(board_state.bit_board, flags.active_color),
        iterator_starts(board_state.bit_board, *flags).len() <= 16,
        legal_masks_spec(board_state.bit_board, *flags).queen_castle ==> 2 <= legal_masks_spec(board_state.bit_board, *flags).king,
        legal_masks_spec(board_state.bit_board, *flags).king_castle ==> legal_masks_spec(board_state.bit_board, *flags).king < 62,
    ensures
        r.wf(),
        r.starts() == iterator_starts(board_state.bit_board, *flags),
        r.targets() == iterator_targets(board_state.bit_board, *flags),
        r.left() == legal_masks_spec(board_state.bit_board, *flags).left_pinned | legal_masks_spec(board_state.bit_board, *flags).left_free,
        r.right() == legal_masks_spec(board_state.bit_board, *flags).right_pinned | legal_masks_spec(board_state.bit_board, *flags).right_free,
        r.pushes() == legal_masks_spec(board_state.bit_board, *flags).push_pinned | legal_masks_spec(board_state.bit_board, *flags).push_free,
        r.doubles() == legal_masks_spec(board_state.bit_board, *flags).double_pinned | legal_masks_spec(board_state.bit_board, *flags).double_free,
{
    let board = &board_state.bit_board;
    let ghost b = *board;
    let m = legal_masks(board, flags);
    let moving_color = flags.active_color;
    let ghost c = moving_color;
    let ghost allied = b.side(c);
    let mut it = MoveIterator::new();

    //Pawns
    it.add_pawn_left_capture(m.left_pinned);
    it.add_pawn_right_capture(m.right_pinned);
    it.add_pawn_left_capture(m.left_free);
    it.add_pawn_right_capture(m.right_free);
    it.add_pawn_push(m.push_pinned);
    it.add_pawn_push(m.push_free);
    it.add_double_pawn_push(m.double_pinned);
    it.add_double_pawn_push(m.double_free);
    proof {
        let (a1, a2, a3, a4) = (m.left_pinned, m.left_free, m.right_pinned, m.right_free);
        assert((0u64 | a1) | a2 == a1 | a2) by (bit_vector);
        assert((0u64 | a3) | a4 == a3 | a4) by (bit_vector);
        let (a5, a6, a7, a8) = (m.push_pinned, m.push_free, m.double_pinned, m.double_free);
        assert((0u64 | a5) | a6 == a5 | a6) by (bit_vector);
        assert((0u64 | a7) | a8 == a7 | a8) by (bit_vector);
    }

    //Knights and sliders
    proof {
        assert forall|s: int| 0 <= s < 64 && #[trigger] bit(m.diag_pinned, s) implies bit(allied, s) by {
            lemma_bit_and(board.diagonal_slider & allied & !m.ortho, m.diag, s);
            lemma_bit_and(board.diagonal_slider & allied, !m.ortho, s);
            lemma_bit_and(board.diagonal_slider, allied, s);
        }
        assert forall|s: int| 0 <= s < 64 && #[trigger] bit(m.diag_free, s) implies bit(allied, s) by {
            lemma_bit_and(board.diagonal_slider & allied & !m.ortho, !m.diag, s);
            lemma_bit_and(board.diagonal_slider & allied, !m.ortho, s);
            lemma_bit_and(board.diagonal_slider, allied, s);
        }
        assert forall|s: int| 0 <= s < 64 && #[trigger] bit(m.ortho_pinned, s) implies bit(allied, s) by {
            lemma_bit_and(board.orthogonal_slider & allied & !m.diag, m.ortho, s);
            lemma_bit_and(board.orthogonal_slider & allied, !m.diag, s);
            lemma_bit_and(board.orthogonal_slider, allied, s);
        }
        assert forall|s: int| 0 <= s < 64 && #[trigger] bit(m.ortho_free, s) implies bit(allied, s) by {
            lemma_bit_and(board.orthogonal_slider & allied & !m.diag, !m.ortho, s);
            lemma_bit_and(board.orthogonal_slider & allied, !m.diag, s);
            lemma_bit_and(board.orthogonal_slider, allied, s);
        }
    }
    let ghost empty_it = it;
    add_source_entries(&mut it, tables, m.knights, SourceKind::Knight, board, moving_color, &m);
    add_source_entries(&mut it, tables, m.diag_pinned, SourceKind::DiagonalPinned, board, moving_color, &m);
    add_source_entries(&mut it, tables, m.diag_free, SourceKind::DiagonalFree, board, moving_color, &m);
    add_source_entries(&mut it, tables, m.ortho_pinned, SourceKind::OrthogonalPinned, board, moving_color, &m);
    add_source_entries(&mut it, tables, m.ortho_free, SourceKind::OrthogonalFree, board, moving_color, &m);

    //King and castlings
    let ghost before_king = it;
    it.add_move(m.king, m.king_targets);
    if m.queen_castle {
        let target = m.king - 2;
        let single = target.bit_array();
        proof {
            lemma_single_bit(target as int, single);
        }
        it.add_move(m.king, single);
    }
    if m.king_castle {
        let target = m.king + 2;
        let single = target.bit_array();
        proof {
            lemma_single_bit(target as int, single);
        }
        it.add_move(m.king, single);
    }
    proof {
        assert(it.starts() =~= iterator_starts(b, *flags));
        assert(it.targets() =~= iterator_targets(b, *flags));
    }
    it
}

/// The moves that the move iterator of the side to move holds, counted: a move per piece
/// target and double push, a move per pawn push or capture, four on the first and last ranks.
pub open spec fn iterator_count(b: BitBoard, f: GameFlags) -> int {
    let m = legal_masks_spec(b, f);
    let ts = iterator_targets(b, f);
    pop_sum(ts, ts.len() as int) + pop(m.double_pinned | m.double_free) + pawn_move_count(m.push_pinned | m.push_free)
        + pawn_move_count(m.left_pinned | m.left_free) + pawn_move_count(m.right_pinned | m.right_free)
}

/// Pawn targets with no square in common count, together, the moves of both.
proof fn lemma_pawn_count_split(a: u64, b: u64)
    requires
        forall|t: int| 0 <= t < 64 ==> !(#[trigger] bit(a, t) && bit(b, t)),
    ensures
        pawn_move_count(a | b) == pawn_move_count(a) + pawn_move_count(b),
        pop(a | b) == pop(a) + pop(b),
{
    broadcast use group_bit_lemmas;
    let l = LAST_RANKS;
    let nl = !LAST_RANKS;
    assert forall|t: int| 0 <= t < 64 implies #[trigger] bit((a | b) & l, t) == bit((a & l) | (b & l), t) by {}
    assert forall|t: int| 0 <= t < 64 implies #[trigger] bit((a | b) & nl, t) == bit((a & nl) | (b & nl), t) by {}
    assert forall|t: int| 0 <= t < 64 implies !(#[trigger] bit(a & l, t) && bit(b & l, t)) by {}
    assert forall|t: int| 0 <= t < 64 implies !(#[trigger] bit(a & nl, t) && bit(b & nl, t)) by {}
    lemma_pop_below_ext((a | b) & l, (a & l) | (b & l), 64);
    lemma_pop_below_ext((a | b) & nl, (a & nl) | (b & nl), 64);
    lemma_pop_below_disjoint(a & l, b & l, 64);
    lemma_pop_below_disjoint(a & nl, b & nl, 64);
    lemma_pop_below_disjoint(a, b, 64);
}

/// The count of the first `n` bitboards depends on those alone.
proof fn lemma_pop_sum_prefix(a: Seq<u64>, b: Seq<u64>, n: int)
    requires
        0 <= n <= a.len(),
        n <= b.len(),
        forall|i: int| 0 <= i < n ==> a[i] == b[i],
    ensures
        pop_sum(a, n) == pop_sum(b, n),
    decreases n,
{
    if n > 0 {
        lemma_pop_sum_prefix(a, b, n - 1);
    }
}

/// Two lists of bitboards one after the other count the squares of both.
proof fn lemma_pop_sum_concat(a: Seq<u64>, b: Seq<u64>)
    ensures
        pop_sum(a + b, (a.len() + b.len()) as int) == pop_sum(a, a.len() as int) + pop_sum(b, b.len() as int),
    decreases b.len(),
{
    if b.len() == 0 {
        lemma_pop_sum_prefix(a + b, a, a.len() as int);
    } else {
        let b2 = b.drop_last();
        lemma_pop_sum_concat(a, b2);
        lemma_pop_sum_prefix(a + b, a + b2, (a.len() + b2.len()) as int);
        lemma_pop_sum_prefix(b, b2, b2.len() as int);
        assert((a + b)[a.len() + b.len() - 1] == b.last());
    }
}

/// The moves of pieces on the squares `srcs` number the targets of their entries.
proof fn lemma_source_seq_len(srcs: Seq<int>, kind: SourceKind, c: PlayerColor, allied: u64, opponent: u64,
    m: LegalMasks, v: Seq<ColoredPieceType>)
    ensures
        source_seq(srcs, kind, c, allied, opponent, m, v).len() == pop_sum(
            entry_targets(srcs, kind, allied, opponent, m),
            srcs.len() as int,
        ),
    decreases srcs.len(),
{
    if srcs.len() > 0 {
        let d = srcs.drop_last();
        let n = srcs.len() as int;
        lemma_source_seq_len(d, kind, c, allied, opponent, m, v);
        let last = srcs.last();
        lemma_piece_seq_len(last, source_targets(kind, last, allied, opponent, m), source_piece(kind, last, c, v), v);
        lemma_pop_sum_prefix(entry_targets(srcs, kind, allied, opponent, m), entry_targets(d, kind, allied, opponent, m), n - 1);
    }
}

/// The pawn targets of the pinned and of the free pawns have no square in common.
proof fn lemma_pawn_masks_disjoint(b: BitBoard, f: GameFlags, t: int)
    requires
        0 <= t < 64,
    ensures
        !(bit(legal_masks_spec(b, f).left_pinned, t) && bit(legal_masks_spec(b, f).left_free, t)),
        !(bit(legal_masks_spec(b, f).right_pinned, t) && bit(legal_masks_spec(b, f).right_free, t)),
        !(bit(legal_masks_spec(b, f).push_pinned, t) && bit(legal_masks_spec(b, f).push_free, t)),
        !(bit(legal_masks_spec(b, f).double_pinned, t) && bit(legal_masks_spec(b, f).double_free, t)),
{
    broadcast use group_bit_lemmas;
    let c = f.active_color;
    let m = legal_masks_spec(b, f);
    let allied = b.side(c);
    let dg = diag_mask(b, c);
    let og = ortho_mask(b, c);
    let dy = pawn_dy(c);
    let pawns = b.pawn & allied;
    let empty = !(b.white_piece | b.black_piece);
    let attack_pawns = pawns & !og;
    let pushable = pawns & !dg;
    lemma_shifted_bits(attack_pawns & dg, -1, dy, t);
    lemma_shifted_bits(attack_pawns & !dg, -1, dy, t);
    lemma_shifted_bits(attack_pawns & dg, 1, dy, t);
    lemma_shifted_bits(attack_pawns & !dg, 1, dy, t);
    lemma_shifted_bits(pushable & og, 0, dy, t);
    lemma_shifted_bits(pushable & !og, 0, dy, t);
    let pinned_step = shifted(pushable & og, 0, dy) & empty;
    let free_step = shifted(pushable & !og, 0, dy) & empty;
    lemma_shifted_bits(pinned_step, 0, dy, t);
    lemma_shifted_bits(free_step, 0, dy, t);
    let s1 = t - 8 * dy;
    if 0 <= s1 < 64 {
        lemma_shifted_bits(pushable & og, 0, dy, s1);
        lemma_shifted_bits(pushable & !og, 0, dy, s1);
    }
}

/// A move iterator of the side to move holds as many moves as `gen_legal_moves` lists:
/// both read the same masks, pinned and free pawns never share a target, and each piece
/// entry gives one move per target square.
pub proof fn law_iterator_counts_legal_moves(b: BitBoard, v: Seq<ColoredPieceType>, f: GameFlags)
    requires
        b.wf(),
        has_king(b, f.active_color),
        legal_masks_spec(b, f).queen_castle ==> 2 <= legal_masks_spec(b, f).king,
        legal_masks_spec(b, f).king_castle ==> legal_masks_spec(b, f).king < 62,
    ensures
        iterator_count(b, f) == legal_moves_spec(b, v, f).len(),
{
    let c = f.active_color;
    let m = legal_masks_spec(b, f);
    let dy = pawn_dy(c);
    let allied = b.side(c);
    let opponent = b.side(other(c));
    let pawn_pt = colored_piece(PieceType::Pawn, c);
    let king_pt = colored_piece(PieceType::King, c);
    b.lemma_king_of_bit(c);
    assert forall|t: int| 0 <= t < 64 implies !(#[trigger] bit(m.left_pinned, t) && bit(m.left_free, t)) by {
        lemma_pawn_masks_disjoint(b, f, t);
    }
    assert forall|t: int| 0 <= t < 64 implies !(#[trigger] bit(m.right_pinned, t) && bit(m.right_free, t)) by {
        lemma_pawn_masks_disjoint(b, f, t);
    }
    assert forall|t: int| 0 <= t < 64 implies !(#[trigger] bit(m.push_pinned, t) && bit(m.push_free, t)) by {
        lemma_pawn_masks_disjoint(b, f, t);
    }
    assert forall|t: int| 0 <= t < 64 implies !(#[trigger] bit(m.double_pinned, t) && bit(m.double_free, t)) by {
        lemma_pawn_masks_disjoint(b, f, t);
    }
    lemma_pawn_count_split(m.left_pinned, m.left_free);
    lemma_pawn_count_split(m.right_pinned, m.right_free);
    lemma_pawn_count_split(m.push_pinned, m.push_free);
    lemma_pawn_count_split(m.double_pinned, m.double_free);
    lemma_pawn_seq_len(m.left_pinned, 1 - 8 * dy, pawn_pt, v);
    lemma_pawn_seq_len(m.right_pinned, -1 - 8 * dy, pawn_pt, v);
    lemma_pawn_seq_len(m.left_free, 1 - 8 * dy, pawn_pt, v);
    lemma_pawn_seq_len(m.right_free, -1 - 8 * dy, pawn_pt, v);
    lemma_pawn_seq_len(m.push_pinned, -8 * dy, pawn_pt, v);
    lemma_pawn_seq_len(m.push_free, -8 * dy, pawn_pt, v);
    lemma_plain_seq_len(m.double_pinned, -16 * dy, pawn_pt, v);
    lemma_plain_seq_len(m.double_free, -16 * dy, pawn_pt, v);

    let e1 = entry_targets(set_squares(m.knights), SourceKind::Knight, allied, opponent, m);
    let e2 = entry_targets(set_squares(m.diag_pinned), SourceKind::DiagonalPinned, allied, opponent, m);
    let e3 = entry_targets(set_squares(m.diag_free), SourceKind::DiagonalFree, allied, opponent, m);
    let e4 = entry_targets(set_squares(m.ortho_pinned), SourceKind::OrthogonalPinned, allied, opponent, m);
    let e5 = entry_targets(set_squares(m.ortho_free), SourceKind::OrthogonalFree, allied, opponent, m);
    let k = m.king as int;
    let q: Seq<u64> = if m.queen_castle { seq![1u64 << ((k - 2) as u64)] } else { Seq::empty() };
    let kc: Seq<u64> = if m.king_castle { seq![1u64 << ((k + 2) as u64)] } else { Seq::empty() };
    lemma_source_seq_len(set_squares(m.knights), SourceKind::Knight, c, allied, opponent, m, v);
    lemma_source_seq_len(set_squares(m.diag_pinned), SourceKind::DiagonalPinned, c, allied, opponent, m, v);
    lemma_source_seq_len(set_squares(m.diag_free), SourceKind::DiagonalFree, c, allied, opponent, m, v);
    lemma_source_seq_len(set_squares(m.ortho_pinned), SourceKind::OrthogonalPinned, c, allied, opponent, m, v);
    lemma_source_seq_len(set_squares(m.ortho_free), SourceKind::OrthogonalFree, c, allied, opponent, m, v);
    lemma_piece_seq_len(k, m.king_targets, king_pt, v);
    lemma_pop_sum_concat(e1, e2);
    lemma_pop_sum_concat(e1 + e2, e3);
    lemma_pop_sum_concat(e1 + e2 + e3, e4);
    lemma_pop_sum_concat(e1 + e2 + e3 + e4, e5);
    lemma_pop_sum_concat(e1 + e2 + e3 + e4 + e5, seq![m.king_targets]);
    lemma_pop_sum_concat(e1 + e2 + e3 + e4 + e5 + seq![m.king_targets], q);
    lemma_pop_sum_concat(e1 + e2 + e3 + e4 + e5 + seq![m.king_targets] + q, kc);
    if m.queen_castle {
        lemma_pop_single(k - 2);
    }
    if m.king_castle {
        lemma_pop_single(k + 2);
    }
    let ts = e1 + e2 + e3 + e4 + e5 + seq![m.king_targets] + q + kc;
    assert(iterator_targets(b, f) == ts);
    assert(pop_sum(seq![m.king_targets], 0) == 0);
    assert(pop_sum(q, 0) == 0);
    assert(pop_sum(kc, 0) == 0);
    assert(pop_sum(ts, ts.len() as int) == pop_sum(e1, e1.len() as int) + pop_sum(e2, e2.len() as int) + pop_sum(e3, e3.len() as int)
        + pop_sum(e4, e4.len() as int) + pop_sum(e5, e5.len() as int) + pop(m.king_targets) + castle_seq(m, k, king_pt).len());
}

/// The number of legal moves of the side to move, counted from the masks without listing the
/// moves (slider moves read from the move tables): as many as `gen_legal_moves` lists.
#[verifier::rlimit(80)]
pub fn count_moves(tables: &SliderTables, board_state: &BoardState, flags: &GameFlags) -> (r: u32)
    requires
        tables.wf(),
        board_state.wf(),
        has_king(board_state.bit_board, flags.active_color),
    ensures
        r == legal_moves_spec(board_state.bit_board, board_state@, *flags).len(),
{
    let board = &board_state.bit_board;
    let ghost b = *board;
    let ghost v = board_state@;
    let m = legal_masks(board, flags);
    let moving_color = flags.active_color;
    let ghost c = moving_color;
    let ghost dy = pawn_dy(c);
    let ghost pawn_pt = colored_piece(PieceType::Pawn, c);
    let ghost king_pt = colored_piece(PieceType::King, c);
    let ghost allied = b.side(c);
    let ghost opponent = b.side(other(c));

    //Pawns
    let c1 = count_pawn_moves(m.left_pinned);
    let c2 = count_pawn_moves(m.right_pinned);
    let c3 = count_pawn_moves(m.left_free);
    let c4 = count_pawn_moves(m.right_free);
    let c5 = count_bits(m.push_pinned);
    let c6 = count_pawn_moves(m.push_free);
    let c7 = count_bits(m.double_pinned);
    let c8 = count_bits(m.double_free);
    proof {
        lemma_pawn_seq_len(m.left_pinned, 1 - 8 * dy, pawn_pt, v);
        lemma_pawn_seq_len(m.right_pinned, -1 - 8 * dy, pawn_pt, v);
        lemma_pawn_seq_len(m.left_free, 1 - 8 * dy, pawn_pt, v);
        lemma_pawn_seq_len(m.right_free, -1 - 8 * dy, pawn_pt, v);
        lemma_pawn_seq_len(m.push_pinned, -8 * dy, pawn_pt, v);
        lemma_pawn_seq_len(m.push_free, -8 * dy, pawn_pt, v);
        lemma_plain_seq_len(m.double_pinned, -16 * dy, pawn_pt, v);
        lemma_plain_seq_len(m.double_free, -16 * dy, pawn_pt, v);
        lemma_pinned_pushes_pop(b, *flags, m);
        crate::board::bit_array::lemma_pop_below_bound(m.left_pinned & !LAST_RANKS, 64);
        crate::board::bit_array::lemma_pop_below_bound(m.left_pinned & LAST_RANKS, 64);
        crate::board::bit_array::lemma_pop_below_bound(m.right_pinned & !LAST_RANKS, 64);
        crate::board::bit_array::lemma_pop_below_bound(m.right_pinned & LAST_RANKS, 64);
        crate::board::bit_array::lemma_pop_below_bound(m.left_free & !LAST_RANKS, 64);
        crate::board::bit_array::lemma_pop_below_bound(m.left_free & LAST_RANKS, 64);
        crate::board::bit_array::lemma_pop_below_bound(m.right_free & !LAST_RANKS, 64);
        crate::board::bit_array::lemma_pop_below_bound(m.right_free & LAST_RANKS, 64);
        crate::board::bit_array::lemma_pop_below_bound(m.push_free & !LAST_RANKS, 64);
        crate::board::bit_array::lemma_pop_below_bound(m.push_free & LAST_RANKS, 64);
    }
    let mut count: u32 = c1 + c2 + c3 + c4 + c5 + c6 + c7 + c8;

    //Knights and sliders
    proof {
        assert forall|s: int| 0 <= s < 64 && #[trigger] bit(m.diag_pinned, s) implies bit(allied, s) by {
            lemma_bit_and(board.diagonal_slider & allied & !m.ortho, m.diag, s);
            lemma_bit_and(board.diagonal_slider & allied, !m.ortho, s);
            lemma_bit_and(board.diagonal_slider, allied, s);
        }
        assert forall|s: int| 0 <= s < 64 && #[trigger] bit(m.diag_free, s) implies bit(allied, s) by {
            lemma_bit_and(board.diagonal_slider & allied & !m.ortho, !m.diag, s);
            lemma_bit_and(board.diagonal_slider & allied, !m.ortho, s);
            lemma_bit_and(board.diagonal_slider, allied, s);
        }
        assert forall|s: int| 0 <= s < 64 && #[trigger] bit(m.ortho_pinned, s) implies bit(allied, s) by {
            lemma_bit_and(board.orthogonal_slider & allied & !m.diag, m.ortho, s);
            lemma_bit_and(board.orthogonal_slider & allied, !m.diag, s);
            lemma_bit_and(board.orthogonal_slider, allied, s);
        }
        assert forall|s: int| 0 <= s < 64 && #[trigger] bit(m.ortho_free, s) implies bit(allied, s) by {
            lemma_bit_and(board.orthogonal_slider & allied & !m.diag, !m.ortho, s);
            lemma_bit_and(board.orthogonal_slider & allied, !m.diag, s);
            lemma_bit_and(board.orthogonal_slider, allied, s);
        }
    }
    let k1 = count_source_moves(tables, m.knights, SourceKind::Knight, board, moving_color, &m, Ghost(v));
    let k2 = count_source_moves(tables, m.diag_pinned, SourceKind::DiagonalPinned, board, moving_color, &m, Ghost(v));
    let k3 = count_source_moves(tables, m.diag_free, SourceKind::DiagonalFree, board, moving_color, &m, Ghost(v));
    let k4 = count_source_moves(tables, m.ortho_pinned, SourceKind::OrthogonalPinned, board, moving_color, &m, Ghost(v));
    let k5 = count_source_moves(tables, m.ortho_free, SourceKind::OrthogonalFree, board, moving_color, &m, Ghost(v));
    count = count + k1 + k2 + k3 + k4 + k5;

    //King
    let k6 = count_bits(m.king_targets);
    proof {
        lemma_piece_seq_len(m.king as int, m.king_targets, king_pt, v);
    }
    count = count + k6;
    if m.queen_castle {
        count = count + 1;
    }
    if m.king_castle {
        count = count + 1;
    }
    count
}

/// The pinned pushes count one move each: none of them promotes.
proof fn lemma_pinned_pushes_pop(b: BitBoard, f: GameFlags, m: LegalMasks)
    requires
        b.wf(),
        has_king(b, f.active_color),
        m == legal_masks_spec(b, f),
        forall|t: int| 0 <= t < 64 ==> #[trigger] bit(m.ortho, t)
            == orthogonal_pin_square(b, f.active_color, king_of(b, f.active_color), t),
    ensures
        pop(m.push_pinned & !LAST_RANKS) + 4 * pop(m.push_pinned & LAST_RANKS) == pop(m.push_pinned),
{
    let c = f.active_color;
    let dy = pawn_dy(c);
    let x = m.push_pinned;
    let og = m.ortho;
    let pushable = b.pawn & b.side(c) & !m.diag;
    let occ = b.white_piece | b.black_piece;
    let moved = shifted(pushable & og, 0, dy);
    assert(x == !occ & moved & og & m.check);
    assert forall|t: int| 0 <= t < 64 implies !bit(x & LAST_RANKS, t) by {
        lemma_bit_and(x, LAST_RANKS, t);
        lemma_last_ranks(t);
        if bit(x, t) {
            lemma_bit_and(!occ & moved & og, m.check, t);
            lemma_bit_and(!occ & moved, og, t);
            lemma_bit_and(!occ, moved, t);
            lemma_bit_not(occ, t);
            lemma_shifted_bits(pushable & og, 0, dy, t);
            let p = t - 8 * dy;
            lemma_bit_and(pushable, og, p);
            lemma_bit_and(b.pawn & b.side(c), !m.diag, p);
            lemma_pinned_push_not_last(b, c, og, t);
        }
    }
    assert forall|t: int| 0 <= t < 64 implies bit(x & LAST_RANKS, t) == bit(0u64, t) by {
        lemma_bit_zero(t);
    }
    lemma_bits_ext(x & LAST_RANKS, 0u64);
    assert forall|t: int| 0 <= t < 64 implies bit(x & !LAST_RANKS, t) == bit(x, t) by {
        lemma_bit_and(x, !LAST_RANKS, t);
        lemma_bit_not(LAST_RANKS, t);
        lemma_bit_and(x, LAST_RANKS, t);
    }
    lemma_bits_ext(x & !LAST_RANKS, x);
    crate::board::bit_array::lemma_pop_zero(0u64);
    assert forall|t: int| 0 <= t < 64 implies !#[trigger] bit(0u64, t) by {
        lemma_bit_zero(t);
    }
}

/// The squares of a shifted bitboard.
pub(crate) proof fn lemma_shifted_bits(b: u64, dx: int, dy: int, t: int)
    requires
        0 <= t < 64,
    ensures
        bit(shifted(b, dx, dy), t) == translated_bit(b, dx, dy, t),
{
    lemma_mask_of_exists(|u: int| translated_bit(b, dx, dy, u));
}

} // verus!
