use vstd::prelude::*;
use crate::board::dynamic_state::DynamicState;
use crate::board::bit_array::{bit, lemma_bit_and, mask_of, lemma_mask_of, lemma_nonzero, set_squares, BitArray};
use crate::board::bit_array_lookup::{king_moves, king_step, row};
use crate::board::bit_board::{attacked_by, king_of, king_square, BitBoard};
use crate::board::dynamic_state::{after_move, move_applicable};
use crate::board::piece_type::{color_of, colored_piece, ColoredPieceType, PieceType};
use crate::board::player_color::{other, PlayerColor};
use crate::board::square::{rank_of, Square};
use crate::game::board_state::BoardState;
use crate::game::game_flags::GameFlags;
use crate::moves::chess_move::ChessMove;
use crate::moves::move_gen::{
    double_push_rank, emit_pawn_moves, emit_piece_moves, emit_plain_moves, emit_source_moves, has_king, pawn_dy,
    pawn_seq, piece_seq, plain_seq, shifted, source_seq, LegalMasks, SourceKind,
};
use crate::game::playable_moves::{flags_fit, lemma_king_stays, law_pseudo_moves_sound, sound_move, lemma_castling_king_home};
use crate::moves::move_vector::{move_at, move_count, move_items, new_move_vector, push_move, MoveVector};

verus! {

/// Masks under which no check restricts a move and no piece is pinned.
pub open spec fn unrestricted() -> LegalMasks {
    LegalMasks {
        check: u64::MAX,
        diag: 0,
        ortho: 0,
        left_pinned: 0,
        right_pinned: 0,
        left_free: 0,
        right_free: 0,
        push_pinned: 0,
        push_free: 0,
        double_pinned: 0,
        double_free: 0,
        knights: 0,
        diag_pinned: 0,
        diag_free: 0,
        ortho_pinned: 0,
        ortho_free: 0,
        king: 0,
        king_targets: 0,
        queen_castle: false,
        king_castle: false,
    }
}

/// The en passant square of `f` as a bitboard, empty when there is none.
pub open spec fn en_passant_bit(f: GameFlags) -> u64 {
    if f.en_passant_square != 64 {
        1u64 << (f.en_passant_square as u64)
    } else {
        0
    }
}

/// The side to move may castle long as far as its flags, the blockers and the king's own
/// square go (the square it crosses still to be looked at).
pub open spec fn queen_castle_open(b: BitBoard, f: GameFlags) -> bool {
    let c = f.active_color;
    let tr: int = if c == PlayerColor::White { 0 } else { 7 };
    let queen_side = if c == PlayerColor::White { f.white_queen_side_castle } else { f.black_queen_side_castle };
    !attacked_by(b@, king_of(b, c), other(c)) && queen_side && (b.white_piece | b.black_piece) & shifted(14, 0, tr) == 0
}

/// The side to move may castle short as far as its flags, the blockers and the king's own
/// square go (the square it crosses still to be looked at).
pub open spec fn king_castle_open(b: BitBoard, f: GameFlags) -> bool {
    let c = f.active_color;
    let tr: int = if c == PlayerColor::White { 0 } else { 7 };
    let king_side = if c == PlayerColor::White { f.white_king_side_castle } else { f.black_king_side_castle };
    !attacked_by(b@, king_of(b, c), other(c)) && king_side && (b.white_piece | b.black_piece) & shifted(96, 0, tr) == 0
}

/// The castlings of the pseudo-legal moves: long, then short, each where it is open and the
/// square that the king crosses is not attacked.
pub open spec fn pseudo_castles(b: BitBoard, f: GameFlags) -> Seq<ChessMove> {
    let c = f.active_color;
    let k = king_of(b, c);
    let king_pt = colored_piece(PieceType::King, c);
    (if queen_castle_open(b, f) && !attacked_by(b@, k - 1, other(c)) {
        seq![ChessMove::spec_new(k as i8, (k - 2) as i8, king_pt, ColoredPieceType::Empty)]
    } else {
        Seq::empty()
    }) + (if king_castle_open(b, f) && !attacked_by(b@, k + 1, other(c)) {
        seq![ChessMove::spec_new(k as i8, (k + 2) as i8, king_pt, ColoredPieceType::Empty)]
    } else {
        Seq::empty()
    })
}

/// The pseudo-legal moves of the side to move, in the order in which they are generated: pawn
/// captures towards the a-file and the h-file (en passant included), pushes, double pushes,
/// knight moves, diagonal and orthogonal slider moves, king moves, and castlings. Pins and
/// checks are not looked at.
pub open spec fn pseudo_moves_spec(b: BitBoard, v: Seq<ColoredPieceType>, f: GameFlags) -> Seq<ChessMove> {
    let c = f.active_color;
    let allied = b.side(c);
    let opponent = b.side(other(c));
    let empty = !(b.white_piece | b.black_piece);
    let pawns = b.pawn & allied;
    let dy = pawn_dy(c);
    let targets = opponent | en_passant_bit(f);
    let pushes = empty & shifted(pawns, 0, dy);
    let k = king_of(b, c);
    let m = unrestricted();
    let pawn_pt = colored_piece(PieceType::Pawn, c);
    pawn_seq(set_squares(targets & shifted(pawns, -1, dy)), 1 - 8 * dy, pawn_pt, v)
        + pawn_seq(set_squares(targets & shifted(pawns, 1, dy)), -1 - 8 * dy, pawn_pt, v)
        + pawn_seq(set_squares(pushes), -8 * dy, pawn_pt, v)
        + plain_seq(set_squares(double_push_rank(c) & empty & shifted(pushes, 0, dy)), -16 * dy, pawn_pt, v)
        + source_seq(set_squares(b.knight & allied), SourceKind::Knight, c, allied, opponent, m, v)
        + source_seq(set_squares(b.diagonal_slider & allied), SourceKind::DiagonalFree, c, allied, opponent, m, v)
        + source_seq(set_squares(b.orthogonal_slider & allied), SourceKind::OrthogonalFree, c, allied, opponent, m, v)
        + piece_seq(k, set_squares(mask_of(|t: int| king_step(k, t)) & !allied), colored_piece(PieceType::King, c), v)
        + pseudo_castles(b, f)
}

/// The king of side `c` is attacked in position `v`.
pub open spec fn in_check_spec(v: Seq<ColoredPieceType>, c: PlayerColor) -> bool {
    exists|k: int| king_square(v, c, k) && attacked_by(v, k, other(c))
}

/// After move `m` in position `v`, the king of the side that moved is not attacked.
pub open spec fn leaves_king_safe(v: Seq<ColoredPieceType>, m: ChessMove) -> bool {
    !in_check_spec(after_move(v, m), color_of(m.move_piece))
}

/// The legal moves of the side to move: the pseudo-legal moves that leave its king safe.
pub fn gen_legal_moves_bitboard(board_state: &BoardState, game_flags: &GameFlags) -> (r: MoveVector)
    requires
        board_state.wf(),
        has_king(board_state.bit_board, game_flags.active_color),
        0 <= game_flags.en_passant_square <= 64,
        flags_fit(board_state@, *game_flags),
        pseudo_moves_spec(board_state.bit_board, board_state@, *game_flags).len() <= 200,
    ensures
        move_items(r) == pseudo_moves_spec(board_state.bit_board, board_state@, *game_flags).filter(
            |m: ChessMove| leaves_king_safe(board_state@, m),
        ),
{
    let ghost b = board_state.bit_board;
    let ghost v = board_state@;
    let ghost c = game_flags.active_color;
    proof {
        law_pseudo_moves_sound(b, *game_flags);
        let k = king_of(b, c);
        b.lemma_king_of_bit(c);
        lemma_castling_king_home(b, *game_flags);
        assert forall|i: int| 0 <= i < pseudo_moves_spec(b, v, *game_flags).len() implies {
            let m = #[trigger] pseudo_moves_spec(b, v, *game_flags)[i];
            &&& move_applicable(v, m)
            &&& exists|k: int| 0 <= k < 64 && after_move(v, m)[k] == colored_piece(PieceType::King, color_of(m.move_piece))
        } by {
            let m = pseudo_moves_spec(b, v, *game_flags)[i];
            assert(sound_move(v, c, m));
            assert(v[k] == colored_piece(PieceType::King, c));
            lemma_king_stays(v, c, m);
        }
    }
    let moves = gen_pseudo_legal_moves_bitboard(board_state, game_flags);
    filter_legal_moves_bitboard(moves, board_state)
}

/// The moves of `moves` that leave the king of the side that moves safe, in order.
pub fn filter_legal_moves_bitboard(moves: MoveVector, board_state: &BoardState) -> (r: MoveVector)
    requires
        board_state.wf(),
        forall|i: int|
            0 <= i < move_items(moves).len() ==> {
                let m = #[trigger] move_items(moves)[i];
                &&& move_applicable(board_state@, m)
                &&& exists|k: int| 0 <= k < 64 && after_move(board_state@, m)[k] == colored_piece(PieceType::King, color_of(m.move_piece))
            },
    ensures
        move_items(r) == move_items(moves).filter(|m: ChessMove| leaves_king_safe(board_state@, m)),
{
    let ghost ms = move_items(moves);
    let ghost keep = |m: ChessMove| leaves_king_safe(board_state@, m);
    let n = move_count(&moves);
    let mut legal_moves = new_move_vector();
    let mut i: usize = 0;
    proof {
        assert(ms.take(0) =~= Seq::<ChessMove>::empty());
    }
    while i < n
        invariant
            board_state.wf(),
            ms == move_items(moves),
            n == ms.len(),
            n <= 200,
            keep == (|m: ChessMove| leaves_king_safe(board_state@, m)),
            forall|j: int|
                0 <= j < ms.len() ==> {
                    let m = #[trigger] ms[j];
                    &&& move_applicable(board_state@, m)
                    &&& exists|k: int| 0 <= k < 64 && after_move(board_state@, m)[k] == colored_piece(PieceType::King, color_of(m.move_piece))
                },
            i <= n,
            move_items(legal_moves) == ms.take(i as int).filter(keep),
        decreases n - i,
    {
        let m = move_at(&moves, i);
        let mut after = *board_state;
        after.make_move(m);
        let color = m.move_piece.color();
        let check = after.is_in_check(color);
        proof {
            assert(ms.take(i as int + 1).drop_last() =~= ms.take(i as int));
            ms.take(i as int).lemma_filter_len(keep);
            lemma_in_check(after@, color, check);
        }
        let ghost before = move_items(legal_moves);
        if !check {
            push_move(&mut legal_moves, m);
        }
        proof {
            assert(m == ms[i as int]);
            assert(ms.take(i as int + 1).last() == m);
            assert(keep(m) == !check);
            reveal(Seq::filter);
            assert(ms.take(i as int + 1).filter(keep) == (if keep(m) {
                before.push(m)
            } else {
                before
            }));
        }
        i = i + 1;
    }
    proof {
        assert(ms.take(n as int) =~= ms);
    }
    legal_moves
}

/// The result of a check test is `in_check_spec`: the king square is the lowest one.
pub(crate) proof fn lemma_in_check(v: Seq<ColoredPieceType>, c: PlayerColor, r: bool)
    requires
        exists|k: int| king_square(v, c, k) && r == attacked_by(v, k, other(c)),
    ensures
        r == in_check_spec(v, c),
{
    let k0 = choose|k: int| king_square(v, c, k) && r == attacked_by(v, k, other(c));
    if in_check_spec(v, c) {
        let k1 = choose|k: int| king_square(v, c, k) && attacked_by(v, k, other(c));
        if k0 < k1 {
            assert(v[k0] == colored_piece(PieceType::King, c));
        } else if k1 < k0 {
            assert(v[k1] == colored_piece(PieceType::King, c));
        }
    }
}

/// The pseudo-legal moves of the side to move: the moves of its pieces by how they move, with
/// no regard to pins or checks, and the castlings whose king squares are not attacked.
#[verifier::rlimit(60)]
pub fn gen_pseudo_legal_moves_bitboard(board_state: &BoardState, flags: &GameFlags) -> (r: MoveVector)
    requires
        board_state.wf(),
        has_king(board_state.bit_board, flags.active_color),
        0 <= flags.en_passant_square <= 64,
        queen_castle_open(board_state.bit_board, *flags) ==> 2 <= king_of(board_state.bit_board, flags.active_color),
        king_castle_open(board_state.bit_board, *flags) ==> king_of(board_state.bit_board, flags.active_color) < 62,
        pseudo_moves_spec(board_state.bit_board, board_state@, *flags).len() <= 200,
    ensures
        move_items(r) == pseudo_moves_spec(board_state.bit_board, board_state@, *flags),
{
    let board = &board_state.bit_board;
    let piece_board = &board_state.piece_board;
    let ghost b = *board;
    let ghost v = piece_board@;
    let moving_color = flags.active_color;
    let ghost c = moving_color;
    let occupied = board.white_piece | board.black_piece;
    let empty = !occupied;
    let allied = match moving_color {
        PlayerColor::White => board.white_piece,
        PlayerColor::Black => board.black_piece,
    };
    let opponent = match moving_color {
        PlayerColor::White => board.black_piece,
        PlayerColor::Black => board.white_piece,
    };
    assert(allied == b.side(c) && opponent == b.side(other(c)));
    let dy: i8 = match moving_color {
        PlayerColor::White => 1,
        PlayerColor::Black => -1,
    };
    let pawn_pt = PieceType::Pawn.colored(moving_color);
    let king_pt = PieceType::King.colored(moving_color);
    let pawns = board.pawn & allied;
    let double_rank = match moving_color {
        PlayerColor::White => row(3),
        PlayerColor::Black => row(4),
    };
    proof {
        lemma_mask_of(|t: int| rank_of(t) == (if c == PlayerColor::White { 3int } else { 4int }), double_rank);
        crate::board::piece_type::law_colored_piece_roundtrip(PieceType::Pawn, moving_color, pawn_pt);
        crate::board::piece_type::law_colored_piece_roundtrip(PieceType::King, moving_color, king_pt);
    }
    let ep_bit: u64 = if flags.en_passant_square != 64 {
        flags.en_passant_square.bit_array()
    } else {
        0
    };
    proof {
        if flags.en_passant_square != 64 {
            crate::moves::move_gen::lemma_single_bit(flags.en_passant_square as int, ep_bit);
        }
    }
    let pawn_targets = opponent | ep_bit;
    let left = pawn_targets & crate::moves::move_gen::shift(pawns, -1, dy);
    let right = pawn_targets & crate::moves::move_gen::shift(pawns, 1, dy);
    let pushes = empty & crate::moves::move_gen::shift_vertical(pawns, dy);
    let doubles = double_rank & empty & crate::moves::move_gen::shift_vertical(pushes, dy);
    let m = LegalMasks {
        check: u64::MAX,
        diag: 0,
        ortho: 0,
        left_pinned: 0,
        right_pinned: 0,
        left_free: 0,
        right_free: 0,
        push_pinned: 0,
        push_free: 0,
        double_pinned: 0,
        double_free: 0,
        knights: 0,
        diag_pinned: 0,
        diag_free: 0,
        ortho_pinned: 0,
        ortho_free: 0,
        king: 0,
        king_targets: 0,
        queen_castle: false,
        king_castle: false,
    };
    proof {
        assert forall|s: int| 0 <= s < 64 && #[trigger] bit(board.knight & allied, s) implies v[s] != ColoredPieceType::Empty by {
            lemma_bit_and(board.knight, allied, s);
            board.lemma_bits_of(s);
        }
        assert forall|s: int| 0 <= s < 64 && #[trigger] bit(board.diagonal_slider & allied, s) implies v[s] != ColoredPieceType::Empty by {
            lemma_bit_and(board.diagonal_slider, allied, s);
            board.lemma_bits_of(s);
        }
        assert forall|s: int| 0 <= s < 64 && #[trigger] bit(board.orthogonal_slider & allied, s) implies v[s] != ColoredPieceType::Empty by {
            lemma_bit_and(board.orthogonal_slider, allied, s);
            board.lemma_bits_of(s);
        }
    }
    let mut moves = new_move_vector();

    //Pawns
    emit_pawn_moves(&mut moves, left, 1 - 8 * dy, pawn_pt, piece_board);
    emit_pawn_moves(&mut moves, right, -1 - 8 * dy, pawn_pt, piece_board);
    emit_pawn_moves(&mut moves, pushes, -8 * dy, pawn_pt, piece_board);
    emit_plain_moves(&mut moves, doubles, -16 * dy, pawn_pt, piece_board);

    //Knights and sliders
    emit_source_moves(&mut moves, board.knight & allied, SourceKind::Knight, moving_color, allied, opponent, &m, piece_board);
    emit_source_moves(&mut moves, board.diagonal_slider & allied, SourceKind::DiagonalFree, moving_color, allied, opponent, &m, piece_board);
    emit_source_moves(&mut moves, board.orthogonal_slider & allied, SourceKind::OrthogonalFree, moving_color, allied, opponent, &m, piece_board);

    //King
    proof {
        b.lemma_king_of_bit(c);
        lemma_nonzero(allied & board.king);
    }
    let king_square = (allied & board.king).lowest_square_index() as i8;
    assert(king_square == king_of(b, c));
    let steps = king_moves(king_square);
    proof {
        lemma_mask_of(|t: int| king_step(king_square as int, t), steps);
    }
    emit_piece_moves(&mut moves, king_square, steps & !allied, king_pt, piece_board);

    //Castling
    let translation: i8 = match moving_color {
        PlayerColor::White => 0,
        PlayerColor::Black => 7,
    };
    let queen_side_blocker = crate::moves::move_gen::shift_vertical(14, translation);
    let king_side_blocker = crate::moves::move_gen::shift_vertical(96, translation);
    let (king_side, queen_side) = match moving_color {
        PlayerColor::White => (flags.white_king_side_castle, flags.white_queen_side_castle),
        PlayerColor::Black => (flags.black_king_side_castle, flags.black_queen_side_castle),
    };
    let opponent_color = core::ops::Not::not(moving_color);
    let ghost before_castle = move_items(moves);
    if !board_state.square_attacked(king_square, opponent_color) {
        if queen_side && (occupied & queen_side_blocker) == 0 {
            if !board_state.square_attacked(king_square - 1, opponent_color) {
                push_move(&mut moves, ChessMove::new(king_square, king_square - 2, king_pt, ColoredPieceType::Empty));
            }
        }
        if king_side && (occupied & king_side_blocker) == 0 {
            if !board_state.square_attacked(king_square + 1, opponent_color) {
                push_move(&mut moves, ChessMove::new(king_square, king_square + 2, king_pt, ColoredPieceType::Empty));
            }
        }
    }
    assert(move_items(moves) =~= before_castle + pseudo_castles(b, *flags));
    moves
}

} // verus!
