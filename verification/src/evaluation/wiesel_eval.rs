use vstd::prelude::*;
use crate::board::bit_array::{count_bits, pop};
use crate::board::bit_board::BitBoard;
use crate::board::bit_array::bit;
use crate::board::piece_type::{colored_piece, PieceType};
use crate::board::player_color::PlayerColor;
use crate::moves::chess_move::ChessMove;
use crate::moves::move_vector::{move_at, move_count, move_items, MoveVector};

verus! {

/// The parameters of the Wiesel evaluation.
#[derive(Debug, Clone, Copy)]
pub struct WieselSettings {
    pub pawn_value: i32,
    pub version: i8,
    pub piece_weight: [i32; 5],
}

/// White's pieces less Black's.
pub fn piece_count(bb: &BitBoard) -> (r: i32)
    ensures
        r == pop(bb.white_piece) - pop(bb.black_piece),
{
    count_bits(bb.white_piece) as i32 - count_bits(bb.black_piece) as i32
}

/// The bitboards of the pieces of one side by kind: pawns, knights, bishops, rooks, queens.
pub open spec fn kind_masks(bb: BitBoard, side: u64) -> Seq<u64> {
    seq![
        side & bb.pawn,
        side & bb.knight,
        side & (bb.diagonal_slider & !bb.orthogonal_slider),
        side & (bb.orthogonal_slider & !bb.diagonal_slider),
        side & (bb.orthogonal_slider & bb.diagonal_slider),
    ]
}

/// The kind masks of a side hold exactly its pieces of each kind, in the order pawns,
/// knights, bishops, rooks, queens: square `s` is in the `i`-th mask of side `c` exactly when
/// a piece of `c` of the `i`-th kind stands there, so a queen counts as a queen alone and no
/// square is in two masks.
pub proof fn law_kind_masks(bb: BitBoard, c: PlayerColor, s: int)
    requires
        bb.wf(),
        0 <= s < 64,
    ensures
        bit(kind_masks(bb, bb.side(c))[0], s) == (bb@[s] == colored_piece(PieceType::Pawn, c)),
        bit(kind_masks(bb, bb.side(c))[1], s) == (bb@[s] == colored_piece(PieceType::Knight, c)),
        bit(kind_masks(bb, bb.side(c))[2], s) == (bb@[s] == colored_piece(PieceType::Bishop, c)),
        bit(kind_masks(bb, bb.side(c))[3], s) == (bb@[s] == colored_piece(PieceType::Rook, c)),
        bit(kind_masks(bb, bb.side(c))[4], s) == (bb@[s] == colored_piece(PieceType::Queen, c)),
{
    broadcast use crate::board::bit_array::group_bit_lemmas;
    bb.lemma_bits_of(s);
    crate::board::piece_type::law_colored_piece_roundtrip(PieceType::Pawn, c, bb@[s]);
}

/// Fills the bitboards of both sides' pawns, knights, bishops, rooks and queens.
pub fn piece_array(bb: &BitBoard, whitepieces: &mut [u64; 5], blackpieces: &mut [u64; 5])
    ensures
        final(whitepieces)@ == kind_masks(*bb, bb.white_piece),
        final(blackpieces)@ == kind_masks(*bb, bb.black_piece),
{
    whitepieces[0] = bb.white_piece & bb.pawn;
    blackpieces[0] = bb.black_piece & bb.pawn;

    whitepieces[1] = bb.white_piece & bb.knight;
    blackpieces[1] = bb.black_piece & bb.knight;

    let bishops = bb.diagonal_slider & !bb.orthogonal_slider;
    whitepieces[2] = bb.white_piece & bishops;
    blackpieces[2] = bb.black_piece & bishops;

    let rooks = bb.orthogonal_slider & !bb.diagonal_slider;
    whitepieces[3] = bb.white_piece & rooks;
    blackpieces[3] = bb.black_piece & rooks;

    let queens = bb.orthogonal_slider & bb.diagonal_slider;
    whitepieces[4] = bb.white_piece & queens;
    blackpieces[4] = bb.black_piece & queens;
    assert(whitepieces@ =~= kind_masks(*bb, bb.white_piece));
    assert(blackpieces@ =~= kind_masks(*bb, bb.black_piece));
}

/// The term of kind `i`: the difference in numbers times the weight.
pub open spec fn weight_term(whitepieces: [u64; 5], blackpieces: [u64; 5], weights: [i32; 5], i: int) -> int {
    (pop(whitepieces[i]) - pop(blackpieces[i])) * weights[i]
}

/// The weighted sum of the first `n` kinds.
pub open spec fn weighted_sum(whitepieces: [u64; 5], blackpieces: [u64; 5], weights: [i32; 5], n: int) -> int
    decreases n,
{
    if n <= 0 {
        0
    } else {
        weighted_sum(whitepieces, blackpieces, weights, n - 1) + weight_term(whitepieces, blackpieces, weights, n - 1)
    }
}

/// The sum over the kinds of the difference in numbers times the kind's weight.
pub fn static_piece_weight(whitepieces: &[u64; 5], blackpieces: &[u64; 5], weights: [i32; 5]) -> (r: i32)
    requires
        forall|i: int| 0 <= i < 5 ==> i32::MIN <= #[trigger] weight_term(*whitepieces, *blackpieces, weights, i) <= i32::MAX,
        forall|n: int| 0 <= n <= 5 ==> i32::MIN <= #[trigger] weighted_sum(*whitepieces, *blackpieces, weights, n) <= i32::MAX,
    ensures
        r == weighted_sum(*whitepieces, *blackpieces, weights, 5),
{
    let mut sum: i32 = 0;
    let mut i: usize = 0;
    while i < 5
        invariant
            i <= 5,
            sum == weighted_sum(*whitepieces, *blackpieces, weights, i as int),
            forall|j: int| 0 <= j < 5 ==> i32::MIN <= #[trigger] weight_term(*whitepieces, *blackpieces, weights, j) <= i32::MAX,
            forall|n: int| 0 <= n <= 5 ==> i32::MIN <= #[trigger] weighted_sum(*whitepieces, *blackpieces, weights, n) <= i32::MAX,
        decreases 5 - i,
    {
        let w = count_bits(whitepieces[i]) as i32;
        let b = count_bits(blackpieces[i]) as i32;
        assert(weight_term(*whitepieces, *blackpieces, weights, i as int) == (w - b) * weights[i as int]);
        assert(weighted_sum(*whitepieces, *blackpieces, weights, i + 1) == sum + (w - b) * weights[i as int]);
        sum = sum + (w - b) * weights[i];
        i = i + 1;
    }
    sum
}

/// The number of moves of `ms` that end on square `s`.
pub open spec fn ends_on(ms: Seq<ChessMove>, s: int) -> int
    decreases ms.len(),
{
    if ms.len() == 0 {
        0
    } else {
        ends_on(ms.drop_last(), s) + (if ms.last().end == s { 1int } else { 0int })
    }
}

/// The control of square `s`: the moves of `white` that end on it less those of `black`.
pub open spec fn control_of(white: Seq<ChessMove>, black: Seq<ChessMove>, s: int) -> int {
    ends_on(white, s) - ends_on(black, s)
}

/// The moves up to `i + 1` end on `s` once more when the `i`-th does, and no more than all
/// of them do.
proof fn lemma_ends_on_step(ms: Seq<ChessMove>, s: int, i: int)
    requires
        0 <= i < ms.len(),
    ensures
        ends_on(ms.take(i + 1), s) == ends_on(ms.take(i), s) + (if ms[i].end == s { 1int } else { 0int }),
        ends_on(ms.take(i + 1), s) <= ends_on(ms, s),
    decreases ms.len() - i,
{
    assert(ms.take(i + 1).drop_last() =~= ms.take(i));
    if i + 1 < ms.len() {
        lemma_ends_on_step(ms, s, i + 1);
    } else {
        assert(ms.take(i + 1) =~= ms);
    }
}

/// Folds `f` over the control of the squares in order, from 0: the result is the last of a
/// chain of values that starts at 0, where each next value is what `f` gives for the one before
/// and the control of the next square.
pub fn absolute_field_control<F: Fn(i32, &i8) -> i32>(bb: &BitBoard, whitemoves: &MoveVector, blackmoves: &MoveVector,
    f: &F) -> (r: i32)
    requires
        forall|i: int| 0 <= i < move_items(*whitemoves).len() ==> 0 <= #[trigger] move_items(*whitemoves)[i].end < 64,
        forall|i: int| 0 <= i < move_items(*blackmoves).len() ==> 0 <= #[trigger] move_items(*blackmoves)[i].end < 64,
        forall|s: int|
            0 <= s < 64 ==> #[trigger] ends_on(move_items(*whitemoves), s) <= 127 && control_of(
                move_items(*whitemoves),
                move_items(*blackmoves),
                s,
            ) >= -128,
        forall|acc: i32, x: i8| call_requires(*f, (acc, &x)),
    ensures
        exists|accs: Seq<i32>|
            {
                &&& accs.len() == 65
                &&& accs[0] == 0
                &&& accs[64] == r
                &&& forall|i: int|
                    0 <= i < 64 ==> call_ensures(
                        *f,
                        (accs[i], &(control_of(move_items(*whitemoves), move_items(*blackmoves), i) as i8)),
                        #[trigger] accs[i + 1],
                    )
            },
{
    let ghost w = move_items(*whitemoves);
    let ghost b = move_items(*blackmoves);
    let mut control: Vec<i8> = vec![0i8; 64];
    let nw = move_count(whitemoves);
    let mut i: usize = 0;
    proof {
        assert forall|s: int| 0 <= s < 64 implies control@[s] == ends_on(w.take(0), s) by {
            assert(w.take(0) =~= Seq::<ChessMove>::empty());
        }
    }
    while i < nw
        invariant
            w == move_items(*whitemoves),
            nw == w.len(),
            i <= nw,
            control@.len() == 64,
            forall|j: int| 0 <= j < w.len() ==> 0 <= #[trigger] w[j].end < 64,
            forall|s: int| 0 <= s < 64 ==> #[trigger] ends_on(w, s) <= 127,
            forall|s: int| 0 <= s < 64 ==> control@[s] == #[trigger] ends_on(w.take(i as int), s),
        decreases nw - i,
    {
        let m = move_at(whitemoves, i);
        let e = m.end as usize;
        proof {
            assert(m == w[i as int]);
            assert forall|s: int| 0 <= s < 64 implies #[trigger] ends_on(w.take(i as int + 1), s) == ends_on(w.take(i as int), s)
                + (if w[i as int].end == s { 1int } else { 0int }) && ends_on(w.take(i as int + 1), s) <= ends_on(w, s) by {
                lemma_ends_on_step(w, s, i as int);
            }
            assert(ends_on(w.take(i as int + 1), e as int) <= 127);
        }
        let value = control[e] + 1;
        control.set(e, value);
        i = i + 1;
    }
    proof {
        assert(w.take(nw as int) =~= w);
        assert forall|s: int| 0 <= s < 64 implies control@[s] == ends_on(w, s) - ends_on(b.take(0), s) by {
            assert(b.take(0) =~= Seq::<ChessMove>::empty());
        }
    }
    let nb = move_count(blackmoves);
    let mut i: usize = 0;
    while i < nb
        invariant
            w == move_items(*whitemoves),
            b == move_items(*blackmoves),
            nb == b.len(),
            i <= nb,
            control@.len() == 64,
            forall|j: int| 0 <= j < b.len() ==> 0 <= #[trigger] b[j].end < 64,
            forall|s: int| 0 <= s < 64 ==> #[trigger] control_of(w, b, s) >= -128,
            forall|s: int| 0 <= s < 64 ==> control@[s] == ends_on(w, s) - #[trigger] ends_on(b.take(i as int), s),
        decreases nb - i,
    {
        let m = move_at(blackmoves, i);
        let e = m.end as usize;
        proof {
            assert(m == b[i as int]);
            assert forall|s: int| 0 <= s < 64 implies #[trigger] ends_on(b.take(i as int + 1), s) == ends_on(b.take(i as int), s)
                + (if b[i as int].end == s { 1int } else { 0int }) && ends_on(b.take(i as int + 1), s) <= ends_on(b, s) by {
                lemma_ends_on_step(b, s, i as int);
            }
            assert(control_of(w, b, e as int) >= -128);
            assert(control_of(w, b.take(i as int + 1), e as int) >= -128);
        }
        let value = control[e] - 1;
        control.set(e, value);
        i = i + 1;
    }
    proof {
        assert(b.take(nb as int) =~= b);
    }
    let mut acc: i32 = 0;
    let ghost mut accs: Seq<i32> = seq![0i32];
    let mut k: usize = 0;
    while k < 64
        invariant
            k <= 64,
            control@.len() == 64,
            forall|s: int| 0 <= s < 64 ==> control@[s] == #[trigger] control_of(w, b, s),
            w == move_items(*whitemoves),
            b == move_items(*blackmoves),
            forall|acc: i32, x: i8| call_requires(*f, (acc, &x)),
            accs.len() == k + 1,
            accs[0] == 0,
            accs[k as int] == acc,
            forall|j: int| 0 <= j < k ==> call_ensures(*f, (accs[j], &(control_of(w, b, j) as i8)), #[trigger] accs[j + 1]),
        decreases 64 - k,
    {
        let next = f(acc, &control[k]);
        proof {
            assert(control@[k as int] == control_of(w, b, k as int) as i8);
            accs = accs.push(next);
        }
        acc = next;
        k = k + 1;
    }
    acc
}

} // verus!
